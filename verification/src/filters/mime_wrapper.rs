//! Matching a path against a list of media types.

use vstd::prelude::*;
use crate::media::{media_type_parts, guessed_media_type, media_type_accepts, parse_media_type, guess_media_type, accepts};
use crate::filters::mime_types::MimeError;
use crate::text::copy_str;

verus! {

/// A media type, as its type and subtype.
#[derive(Debug, PartialEq, Eq)]
pub struct Mime {
    pub type_: String,
    pub subtype: String,
}

/// Media types; a path matches when its guessed type is one of them.
#[derive(Debug, PartialEq, Eq)]
pub struct MimeWrapper {
    pub types: Vec<Mime>,
}

/// Some of the types accepts the guessed type.
pub open spec fn some_type_accepts(types: Seq<Mime>, guess: (Seq<char>, Seq<char>)) -> bool {
    exists|j: int| 0 <= j < types.len()
        && media_type_accepts((#[trigger] types[j]).type_@, types[j].subtype@, guess)
}

impl Mime {
    /// The media type written in `s`; fails when `mime` refuses it.
    pub fn from_str(s: &str) -> (r: Result<Mime, MimeError>)
        ensures
            r is Ok <==> media_type_parts(s@) is Some,
            r matches Ok(m) ==> media_type_parts(s@) == Some((m.type_@, m.subtype@)),
            r matches Err(e) ==> e.text@ == s@,
    {
        match parse_media_type(s) {
            Ok(parts) => Ok(Mime { type_: parts.0, subtype: parts.1 }),
            Err(_) => Err(MimeError { text: copy_str(s) }),
        }
    }
}

impl MimeWrapper {
    /// The wrapper of the given types.
    pub fn new(vec: Vec<Mime>) -> (w: MimeWrapper)
        ensures
            w.types@ == vec@,
    {
        MimeWrapper { types: vec }
    }

    /// The wrapper of one type.
    pub fn from(mime: Mime) -> (w: MimeWrapper)
        ensures
            w.types@.len() == 1,
            w.types@[0] == mime,
    {
        let mut v: Vec<Mime> = Vec::new();
        v.push(mime);
        MimeWrapper::new(v)
    }

    /// One type for each text, in order; fails on the first text that `mime`
    /// refuses.
    pub fn try_from(value: Vec<&str>) -> (r: Result<MimeWrapper, MimeError>)
        ensures
            r is Ok <==> forall|i: int| 0 <= i < value@.len() ==> (#[trigger] media_type_parts(value@[i]@)) is Some,
            r matches Ok(w) ==> w.types@.len() == value@.len(),
            r matches Ok(w) ==> forall|i: int| 0 <= i < value@.len() ==>
                media_type_parts(value@[i]@) == Some(((#[trigger] w.types@[i]).type_@, w.types@[i].subtype@)),
            r matches Err(e) ==> exists|i: int| 0 <= i < value@.len()
                && (#[trigger] media_type_parts(value@[i]@)) is None && e.text@ == value@[i]@,
    {
        let mut vec: Vec<Mime> = Vec::new();
        let mut i: usize = 0;
        while i < value.len()
            invariant
                i <= value@.len(),
                vec@.len() == i,
                forall|k: int| 0 <= k < i ==> (#[trigger] media_type_parts(value@[k]@)) is Some,
                forall|k: int| 0 <= k < i ==>
                    media_type_parts(value@[k]@) == Some(((#[trigger] vec@[k]).type_@, vec@[k].subtype@)),
            decreases value@.len() - i,
        {
            match Mime::from_str(value[i]) {
                Ok(m) => vec.push(m),
                Err(e) => {
                    assert(media_type_parts(value@[i as int]@) is None);
                    return Err(e);
                }
            }
            i = i + 1;
        }
        Ok(MimeWrapper::new(vec))
    }

    /// Whether some type accepts the given guessed type.
    pub fn accepts_guess(&self, guess_type: &str, guess_subtype: &str) -> (b: bool)
        ensures
            b == some_type_accepts(self.types@, (guess_type@, guess_subtype@)),
    {
        let mut j: usize = 0;
        while j < self.types.len()
            invariant
                j <= self.types@.len(),
                forall|m: int| 0 <= m < j ==> !media_type_accepts((#[trigger] self.types@[m]).type_@,
                    self.types@[m].subtype@, (guess_type@, guess_subtype@)),
            decreases self.types@.len() - j,
        {
            let t = &self.types[j];
            if accepts(t.type_.as_str(), t.subtype.as_str(), guess_type, guess_subtype) {
                return true;
            }
            j = j + 1;
        }
        false
    }

    /// Whether some type accepts the type guessed from `path`.
    pub fn matches(&self, path: &str) -> (b: bool)
        ensures
            b == some_type_accepts(self.types@, guessed_media_type(path@)),
    {
        let guess = guess_media_type(path);
        self.accepts_guess(guess.0.as_str(), guess.1.as_str())
    }
}

/// A single wanted type with neither part `*` accepts a guess exactly when
/// both the type and the subtype are equal.
pub proof fn law_single_type_exact(types: Seq<Mime>, guess: (Seq<char>, Seq<char>))
    requires
        types.len() == 1,
        types[0].type_@ != "*"@,
        types[0].subtype@ != "*"@,
    ensures
        some_type_accepts(types, guess) <==> (types[0].type_@ == guess.0 && types[0].subtype@ == guess.1),
{
    if types[0].type_@ == guess.0 && types[0].subtype@ == guess.1 {
        assert(media_type_accepts(types[0].type_@, types[0].subtype@, guess));
    }
}

} // verus!
