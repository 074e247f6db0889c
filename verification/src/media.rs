//! Media types, parsed by the `mime` crate and guessed from file names by
//! `mime_guess`.
//!
//! A media type is held as its type and subtype, as the `mime` crate gives
//! them. What `mime` accepts and what `mime_guess` guesses are named here, as
//! functions of the text and of the path.

use vstd::prelude::*;
use mime::Mime as MediaType;
use mime::FromStrError as MediaTypeError;

verus! {

#[verifier::external_type_specification]
#[verifier::external_body]
pub struct ExMediaTypeError(MediaTypeError);

/// The type and subtype that `mime` reads from `text`; `None` where it
/// refuses the text.
pub uninterp spec fn media_type_parts(text: Seq<char>) -> Option<(Seq<char>, Seq<char>)>;

/// The type and subtype of the first media type that `mime_guess` guesses
/// for `path`, or of `application/octet-stream` when it guesses none.
pub uninterp spec fn guessed_media_type(path: Seq<char>) -> (Seq<char>, Seq<char>);

/// The type and subtype of the first media type that `mime_guess` guesses
/// for `path`; `None` when it guesses none.
pub uninterp spec fn first_media_guess(path: Seq<char>) -> Option<(Seq<char>, Seq<char>)>;

/// `mime_guess::from_path` followed by `first`, keeping the type and subtype
/// of the guess. As `first_or_octet_stream` is `first` with
/// `application/octet-stream` in place of no guess, the two agree.
#[verifier::external_body]
pub(crate) fn first_media_type(path: &str) -> (r: Option<(String, String)>)
    ensures
        match r {
            Some(p) => first_media_guess(path@) == Some((p.0@, p.1@))
                && guessed_media_type(path@) == (p.0@, p.1@),
            None => first_media_guess(path@) is None
                && guessed_media_type(path@) == ("application"@, "octet-stream"@),
        },
{
    mime_guess::from_path(path).first().map(|g| (g.type_().as_str().to_string(), g.subtype().as_str().to_string()))
}

/// `mime::Mime::from_str`, keeping the type and subtype of the result.
#[verifier::external_body]
pub(crate) fn parse_media_type(text: &str) -> (r: Result<(String, String), MediaTypeError>)
    ensures
        r matches Ok(p) ==> media_type_parts(text@) == Some((p.0@, p.1@)),
        r is Err ==> media_type_parts(text@) is None,
{
    let m = text.parse::<MediaType>()?;
    Ok((m.type_().as_str().to_string(), m.subtype().as_str().to_string()))
}

/// `mime_guess::from_path` followed by `first_or_octet_stream`, keeping the
/// type and subtype of the guess.
#[verifier::external_body]
pub(crate) fn guess_media_type(path: &str) -> (r: (String, String))
    ensures
        r.0@ == guessed_media_type(path@).0,
        r.1@ == guessed_media_type(path@).1,
{
    let g = mime_guess::from_path(path).first_or_octet_stream();
    (g.type_().as_str().to_string(), g.subtype().as_str().to_string())
}

/// Whether a wanted type and subtype accept a guessed one: a `*` type
/// accepts any type with the same subtype, a `*` subtype any subtype of the
/// same type.
pub open spec fn media_type_accepts(type_: Seq<char>, subtype: Seq<char>, guess: (Seq<char>, Seq<char>)) -> bool {
    if type_ == "*"@ {
        subtype == guess.1
    } else if subtype == "*"@ {
        type_ == guess.0
    } else {
        type_ == guess.0 && subtype == guess.1
    }
}

/// Whether the wanted `type_`/`subtype` accept the guessed `guess_type`/`guess_subtype`.
pub fn accepts(type_: &str, subtype: &str, guess_type: &str, guess_subtype: &str) -> (b: bool)
    ensures
        b == media_type_accepts(type_@, subtype@, (guess_type@, guess_subtype@)),
{
    if crate::text::str_eq(type_, "*") {
        crate::text::str_eq(subtype, guess_subtype)
    } else if crate::text::str_eq(subtype, "*") {
        crate::text::str_eq(type_, guess_type)
    } else {
        crate::text::str_eq(type_, guess_type) && crate::text::str_eq(subtype, guess_subtype)
    }
}

/// A wanted type with neither part `*` accepts a guess only when both its
/// type and its subtype are equal; a `*` type accepts exactly the guesses
/// with an equal subtype, and a `*` subtype exactly those with an equal type.
pub proof fn law_media_type_exact(type_: Seq<char>, subtype: Seq<char>, guess: (Seq<char>, Seq<char>))
    ensures
        (type_ != "*"@ && subtype != "*"@) ==>
            (media_type_accepts(type_, subtype, guess) <==> (type_ == guess.0 && subtype == guess.1)),
        type_ == "*"@ ==> (media_type_accepts(type_, subtype, guess) <==> subtype == guess.1),
        (type_ != "*"@ && subtype == "*"@) ==> (media_type_accepts(type_, subtype, guess) <==> type_ == guess.0),
{
}

} // verus!
