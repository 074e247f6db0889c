//! Filtering resources by the media type guessed from their paths.

use vstd::prelude::*;
use crate::media::{media_type_parts, guessed_media_type, media_type_accepts, parse_media_type, guess_media_type, accepts};
use crate::resource::Resource;
use crate::text::{split_negation, negated, unnegated, copy_str};

verus! {

/// A wanted media type, and whether its verdict is turned round.
#[derive(Debug, PartialEq, Eq)]
pub struct MimeInternal {
    pub type_: String,
    pub subtype: String,
    pub negate: bool,
}

/// Wanted media types; a resource passes when any of them lets it pass.
#[derive(Debug, PartialEq, Eq)]
pub struct Mime {
    pub types: Vec<MimeInternal>,
}

/// A media type text that `mime` refused.
#[derive(Debug, PartialEq, Eq)]
pub struct MimeError {
    pub text: String,
}

/// The verdict of one wanted type on a guessed type.
pub open spec fn internal_holds(m: MimeInternal, guess: (Seq<char>, Seq<char>)) -> bool {
    media_type_accepts(m.type_@, m.subtype@, guess) != m.negate
}

/// Some wanted type lets the guessed type pass.
pub open spec fn mime_holds(types: Seq<MimeInternal>, guess: (Seq<char>, Seq<char>)) -> bool {
    exists|j: int| 0 <= j < types.len() && internal_holds(#[trigger] types[j], guess)
}

/// `m` is what the pattern text `s` reads as.
pub open spec fn read_as(m: MimeInternal, s: Seq<char>) -> bool {
    &&& m.negate == negated(s)
    &&& media_type_parts(unnegated(s)) == Some((m.type_@, m.subtype@))
}

impl MimeInternal {
    /// The verdict on a guessed type.
    pub fn holds_for(&self, guess_type: &str, guess_subtype: &str) -> (b: bool)
        ensures
            b == internal_holds(*self, (guess_type@, guess_subtype@)),
    {
        let a = accepts(self.type_.as_str(), self.subtype.as_str(), guess_type, guess_subtype);
        if self.negate { !a } else { a }
    }
}

impl Mime {
    /// One wanted type for each text, in order; a leading `!` turns the
    /// verdict round. Fails on the first text that `mime` refuses.
    pub fn try_from(value: Vec<&str>) -> (r: Result<Mime, MimeError>)
        ensures
            r is Ok <==> forall|i: int| 0 <= i < value@.len() ==> (#[trigger] media_type_parts(unnegated(value@[i]@))) is Some,
            r matches Ok(m) ==> m.types@.len() == value@.len(),
            r matches Ok(m) ==> forall|i: int| 0 <= i < value@.len() ==> read_as(#[trigger] m.types@[i], value@[i]@),
            r matches Err(e) ==> exists|i: int| 0 <= i < value@.len()
                && (#[trigger] media_type_parts(unnegated(value@[i]@))) is None
                && e.text@ == unnegated(value@[i]@),
    {
        let mut types: Vec<MimeInternal> = Vec::new();
        let mut i: usize = 0;
        while i < value.len()
            invariant
                i <= value@.len(),
                types@.len() == i,
                forall|k: int| 0 <= k < i ==> (#[trigger] media_type_parts(unnegated(value@[k]@))) is Some,
                forall|k: int| 0 <= k < i ==> read_as(#[trigger] types@[k], value@[k]@),
            decreases value@.len() - i,
        {
            let (text, negate) = split_negation(value[i]);
            match parse_media_type(text.as_str()) {
                Ok(parts) => {
                    types.push(MimeInternal { type_: parts.0, subtype: parts.1, negate });
                }
                Err(_) => {
                    assert(media_type_parts(unnegated(value@[i as int]@)) is None);
                    return Err(MimeError { text: copy_str(text.as_str()) });
                }
            }
            i = i + 1;
        }
        Ok(Mime { types })
    }

    /// The single wanted type `s`.
    pub fn from_str(s: &str) -> (r: Result<Mime, MimeError>)
        ensures
            r is Ok <==> media_type_parts(unnegated(s@)) is Some,
            r matches Ok(m) ==> (m.types@.len() == 1 && read_as(m.types@[0], s@)),
    {
        let mut v: Vec<&str> = Vec::new();
        v.push(s);
        let r = Self::try_from(v);
        proof {
            if r is Err {
                assert(media_type_parts(unnegated(v@[0]@)) is None);
            }
        }
        r
    }

    /// Whether some wanted type lets the guessed type pass.
    pub fn holds_for(&self, guess_type: &str, guess_subtype: &str) -> (b: bool)
        ensures
            b == mime_holds(self.types@, (guess_type@, guess_subtype@)),
    {
        let mut j: usize = 0;
        while j < self.types.len()
            invariant
                j <= self.types@.len(),
                forall|m: int| 0 <= m < j ==> !internal_holds(#[trigger] self.types@[m], (guess_type@, guess_subtype@)),
            decreases self.types@.len() - j,
        {
            if self.types[j].holds_for(guess_type, guess_subtype) {
                return true;
            }
            j = j + 1;
        }
        false
    }

    /// For each resource, whether some wanted type lets the type guessed from
    /// its path pass.
    pub fn filter(&self, resources: &[&Resource]) -> (r: Vec<bool>)
        ensures
            r@.len() == resources@.len(),
            forall|i: int| 0 <= i < r@.len() ==>
                r@[i] == mime_holds(self.types@, guessed_media_type((#[trigger] resources@[i]).path@)),
    {
        let mut out: Vec<bool> = Vec::new();
        let mut i: usize = 0;
        while i < resources.len()
            invariant
                i <= resources@.len(),
                out@.len() == i,
                forall|k: int| 0 <= k < i ==>
                    out@[k] == mime_holds(self.types@, guessed_media_type((#[trigger] resources@[k]).path@)),
            decreases resources@.len() - i,
        {
            let guess = guess_media_type(resources[i].path.as_str());
            out.push(self.holds_for(guess.0.as_str(), guess.1.as_str()));
            i = i + 1;
        }
        out
    }
}

/// A wanted type written with a leading `!` gives the opposite verdict of
/// the same type without it.
pub proof fn law_mime_negation(type_: String, subtype: String, guess: (Seq<char>, Seq<char>))
    ensures
        internal_holds(MimeInternal { type_, subtype, negate: true }, guess)
            == !internal_holds(MimeInternal { type_, subtype, negate: false }, guess),
{
}

/// A single wanted type with neither part `*` lets a guess pass exactly when
/// both parts are equal, and, written with `!`, exactly when they are not.
pub proof fn law_single_internal_exact(types: Seq<MimeInternal>, guess: (Seq<char>, Seq<char>))
    requires
        types.len() == 1,
        types[0].type_@ != "*"@,
        types[0].subtype@ != "*"@,
    ensures
        mime_holds(types, guess) <==> ((types[0].type_@ == guess.0 && types[0].subtype@ == guess.1) != types[0].negate),
{
    if (types[0].type_@ == guess.0 && types[0].subtype@ == guess.1) != types[0].negate {
        assert(internal_holds(types[0], guess));
    }
}

} // verus!
