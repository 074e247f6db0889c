//! Writing a line of text for each file into an output file.

use vstd::prelude::*;
use crate::actions::prepare::{prepare_target_path, prepared};
use crate::conflict::ConflictOption;
use crate::lines::{sort_lines, sorted_lines, lines_of, lowercase_all, joined};
use crate::resource::Resource;
use crate::templates::{Template, TemplateEngine, RenderError};
use crate::text::{opt_chars, concat, copy_str};
use crate::variables::{Variable, rendering_for};

verus! {

/// Where new text goes in the output file.
#[derive(Debug, PartialEq, Eq, Structural, Clone, Copy)]
pub enum WriteMode {
    Append,
    Prepend,
}

/// Which path a file carries on with after the write.
#[derive(Debug, PartialEq, Eq, Structural, Clone, Copy)]
pub enum ContinueWith {
    Original,
    WrittenFile,
}

/// Writes rendered text to an output file.
#[derive(Debug, PartialEq, Eq)]
pub struct Write {
    pub text: Template,
    pub outfile: Template,
    pub mode: WriteMode,
    pub clear_before_first_write: bool,
    pub sort_lines: bool,
    pub continue_with: ContinueWith,
    pub enabled: bool,
}

impl WriteMode {
    /// Text is appended unless configured otherwise.
    pub fn default() -> (m: WriteMode)
        ensures
            m == WriteMode::Append,
    {
        WriteMode::Append
    }
}

impl ContinueWith {
    /// Files carry on under their own path unless configured otherwise.
    pub fn default() -> (c: ContinueWith)
        ensures
            c == ContinueWith::Original,
    {
        ContinueWith::Original
    }
}

/// The value of a setting that is on unless configured otherwise.
pub fn default_true() -> (b: bool)
    ensures
        b,
{
    true
}

/// The content of a file after `text` is put before what it held: the old
/// content, ended with a newline if it was not, then the text.
pub open spec fn prepended(existing: Seq<char>, text: Seq<char>) -> Seq<char> {
    if existing.len() > 0 && existing.last() == '\n' {
        existing + text
    } else {
        existing + seq!['\n'] + text
    }
}

impl Write {
    /// The templates of the action.
    pub fn templates(&self) -> (r: Vec<&Template>)
        ensures
            r@.len() == 2,
            *r@[0] == self.text,
            *r@[1] == self.outfile,
    {
        let mut v: Vec<&Template> = Vec::new();
        v.push(&self.text);
        v.push(&self.outfile);
        v
    }

    /// The output file for the resource: the rendered outfile, with the
    /// resource's name added when it names a folder; an existing file is
    /// written to, not moved aside.
    pub fn destination(&self, res: &Resource, template_engine: &TemplateEngine, variables: &[Variable],
        existing: &Vec<String>, directories: &Vec<String>) -> (r: Result<Option<String>, RenderError>)
        requires
            existing@.len() < u64::MAX,
        ensures
            rendering_for(self.outfile.text@, res.context.entries@, variables@) is Some ==> r is Ok,
            r matches Ok(d) ==> exists|rendered: Seq<char>|
                #[trigger] prepared(ConflictOption::Overwrite, rendered, true, res.path@, existing@, directories@, opt_chars(d))
                && (rendering_for(self.outfile.text@, res.context.entries@, variables@) matches Some(k) ==> rendered == k),
    {
        prepare_target_path(&ConflictOption::Overwrite, res, &self.outfile, true, template_engine, variables, existing, directories)
    }

    /// Whether the text is written on disk: not in a dry run, and when
    /// enabled.
    pub fn acts(&self, dry_run: bool) -> (b: bool)
        ensures
            b == (!dry_run && self.enabled),
    {
        !dry_run && self.enabled
    }

    /// The text to write for a file: in prepend mode, the file's old content
    /// followed by the rendered text; else the rendered text.
    pub fn content(&self, rendered: &str, existing_content: &str) -> (r: String)
        ensures
            self.mode == WriteMode::Prepend ==> r@ == prepended(existing_content@, rendered@),
            self.mode == WriteMode::Append ==> r@ == rendered@,
    {
        match self.mode {
            WriteMode::Append => copy_str(rendered),
            WriteMode::Prepend => {
                let n = existing_content.unicode_len();
                if n > 0 && existing_content.get_char(n - 1) == '\n' {
                    concat(existing_content, rendered)
                } else {
                    let with_nl = concat(existing_content, "\n");
                    let r = concat(with_nl.as_str(), rendered);
                    proof {
                        reveal_strlit("\n");
                        assert(r@ =~= prepended(existing_content@, rendered@));
                    }
                    r
                }
            }
        }
    }

    /// The path the file carries on with once written to `dest`.
    pub fn next_path(&self, res: &Resource, dest: &str) -> (r: String)
        ensures
            self.continue_with == ContinueWith::WrittenFile ==> r@ == dest@,
            self.continue_with == ContinueWith::Original ==> r@ == res.path@,
    {
        match self.continue_with {
            ContinueWith::WrittenFile => copy_str(dest),
            ContinueWith::Original => copy_str(res.path.as_str()),
        }
    }

    /// What an output file holds once the run is over: its lines sorted by
    /// their lowercase form when sorting is on and this is no dry run;
    /// otherwise it stays as it is (`None`).
    pub fn on_finish(&self, content: &str, dry_run: bool) -> (r: Option<String>)
        ensures
            (self.sort_lines && !dry_run) <==> r is Some,
            r matches Some(s) ==> exists|out: Seq<Seq<char>>|
                #[trigger] sorted_lines(lines_of(content@), lowercase_all(lines_of(content@)), out)
                && s@ == joined(out),
    {
        if self.sort_lines && !dry_run {
            Some(sort_lines(content))
        } else {
            None
        }
    }
}

} // verus!
