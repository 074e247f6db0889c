//! Mailing a file: the parts of the message and of the password command
//! that the library decides; sending is left to the caller.

use vstd::prelude::*;
use crate::resource::Resource;
use crate::media::{first_media_type, first_media_guess};
use crate::templates::{Template, TemplateEngine, RenderError, known_render};
use crate::text::{chars_of, string_from};

verus! {

/// Mails each file to a recipient, with a subject and body rendered from
/// templates, and the file itself attached when asked.
#[derive(Debug, PartialEq, Eq)]
pub struct Email {
    pub sender: String,
    pub password_cmd: String,
    pub recipient: String,
    pub smtp_server: String,
    pub subject: Option<Template>,
    pub body: Option<Template>,
    pub attach: bool,
}

/// Reading `s` from the left: the pieces ended by a space so far, and the
/// piece begun.
pub open spec fn space_state(s: Seq<char>) -> (Seq<Seq<char>>, Seq<char>)
    decreases s.len(),
{
    if s.len() == 0 {
        (Seq::empty(), Seq::empty())
    } else {
        let st = space_state(s.drop_last());
        if s.last() == ' ' { (st.0.push(st.1), Seq::empty()) } else { (st.0, st.1.push(s.last())) }
    }
}

/// The pieces of `s` between single spaces, empty ones included, as
/// `str::split(" ")` gives them.
pub open spec fn split_spaces(s: Seq<char>) -> Seq<Seq<char>> {
    space_state(s).0.push(space_state(s).1)
}

impl Email {
    /// The program that prints the password, and its arguments: the pieces
    /// of the command between spaces.
    pub fn password_command(&self) -> (r: (String, Vec<String>))
        ensures
            r.0@ == split_spaces(self.password_cmd@)[0],
            r.1@.len() + 1 == split_spaces(self.password_cmd@).len(),
            forall|i: int| 0 <= i < r.1@.len() ==> (#[trigger] r.1@[i])@ == split_spaces(self.password_cmd@)[i + 1],
    {
        let v = chars_of(self.password_cmd.as_str());
        let ghost s = self.password_cmd@;
        let mut pieces: Vec<String> = Vec::new();
        let mut start: usize = 0;
        let mut i: usize = 0;
        while i < v.len()
            invariant
                v@ == s,
                start <= i <= v@.len(),
                pieces@.len() == space_state(v@.take(i as int)).0.len(),
                forall|j: int| 0 <= j < pieces@.len() ==> (#[trigger] pieces@[j])@ == space_state(v@.take(i as int)).0[j],
                v@.subrange(start as int, i as int) == space_state(v@.take(i as int)).1,
            decreases v@.len() - i,
        {
            let ghost pre = v@.take(i as int);
            assert(v@.take(i + 1).drop_last() =~= pre);
            if v[i] == ' ' {
                pieces.push(string_from(&v, start, i));
                start = i + 1;
                assert(v@.subrange(start as int, i + 1) =~= Seq::<char>::empty());
            } else {
                assert(v@.subrange(start as int, i + 1) =~= v@.subrange(start as int, i as int).push(v@[i as int]));
            }
            i = i + 1;
        }
        assert(v@.take(v@.len() as int) =~= v@);
        pieces.push(string_from(&v, start, v.len()));
        let first = pieces.remove(0);
        (first, pieces)
    }

    /// The name the attachment is sent under: the file's name.
    pub fn attachment_name(res: &Resource) -> (r: Option<String>)
        ensures
            crate::text::opt_chars(r) == crate::path::spec_file_name(res.path@),
    {
        crate::path::file_name(res.path.as_str())
    }

    /// What is attached to the mail: nothing unless attaching is asked for
    /// and `mime_guess` guesses a media type for the file; then the file,
    /// under its name, with the first guessed type and subtype.
    pub fn attachment(&self, res: &Resource) -> (r: Option<(String, String, String)>)
        ensures
            match r {
                Some(a) => self.attach
                    && crate::path::spec_file_name(res.path@) == Some(a.0@)
                    && first_media_guess(res.path@) == Some((a.1@, a.2@)),
                None => !self.attach || first_media_guess(res.path@) is None
                    || crate::path::spec_file_name(res.path@) is None,
            },
    {
        if !self.attach {
            return None;
        }
        match first_media_type(res.path.as_str()) {
            None => None,
            Some((type_, subtype)) => match crate::path::file_name(res.path.as_str()) {
                Some(name) => Some((name, type_, subtype)),
                None => None,
            },
        }
    }

    /// The subject, rendered with the file's values, when there is one.
    pub fn subject_text(&self, res: &Resource, engine: &TemplateEngine) -> (r: Result<Option<String>, RenderError>)
        ensures
            self.subject is None ==> r == Ok::<Option<String>, RenderError>(None),
            self.subject matches Some(t) ==> (known_render(t.text@, res.context.entries@) matches Some(k)
                ==> (r matches Ok(Some(s)) && s@ == k)),
    {
        match &self.subject {
            None => Ok(None),
            Some(t) => Ok(Some(engine.render(t, &res.context)?)),
        }
    }

    /// The body, rendered with the file's values, when there is one.
    pub fn body_text(&self, res: &Resource, engine: &TemplateEngine) -> (r: Result<Option<String>, RenderError>)
        ensures
            self.body is None ==> r == Ok::<Option<String>, RenderError>(None),
            self.body matches Some(t) ==> (known_render(t.text@, res.context.entries@) matches Some(k)
                ==> (r matches Ok(Some(s)) && s@ == k)),
    {
        match &self.body {
            None => Ok(None),
            Some(t) => Ok(Some(engine.render(t, &res.context)?)),
        }
    }
}

} // verus!
