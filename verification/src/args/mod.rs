//! The answers the user gives at start: source path, output path, and
//! whether sub-folders are walked.

use vstd::prelude::*;

use std::path::PathBuf;

use vstd::string::*;

use crate::text::{
    ends_with_seq, ends_with_str, lemma_filter_twice, lemma_replace_char_removes, replace_all, replace_str,
};

verus! {

/// A file system path (`std::path::PathBuf`).
#[verifier::external_type_specification]
#[verifier::external_body]
pub struct ExPathBuf(std::path::PathBuf);

/// Where to read, where to write, and whether to walk sub-folders.
#[derive(Debug)]
pub struct InputArgs {
    pub input_path: PathBuf,
    pub output_path: PathBuf,
    pub deep: bool,
}

/// `s` without its carriage returns and line feeds.
pub open spec fn without_line_breaks(s: Seq<char>) -> Seq<char> {
    replace_all(replace_all(s, seq!['\r'], Seq::empty()), seq!['\n'], Seq::empty())
}

/// Cleaning removes exactly the carriage returns and line feeds: what is
/// left is every other character of `s` (a space, a backslash, any letter),
/// in order.
pub proof fn lemma_without_line_breaks_keeps_the_rest(s: Seq<char>)
    ensures
        without_line_breaks(s) == s.filter(|c: char| c != '\r' && c != '\n'),
{
    let without_cr = replace_all(s, seq!['\r'], Seq::empty());
    lemma_replace_char_removes(s, '\r');
    lemma_replace_char_removes(without_cr, '\n');
    lemma_filter_twice(s, |x: char| x != '\r', |x: char| x != '\n');
    assert((|x: char| (|y: char| y != '\r')(x) && (|y: char| y != '\n')(x)) =~= (|c: char|
        c != '\r' && c != '\n'));
}

/// A path as typed by the user, without the carriage returns and line feeds
/// that reading a line leaves in it.
pub fn clean_path_input(input: &str) -> (res: String)
    ensures
        res@ == without_line_breaks(input@),
        res@ == input@.filter(|c: char| c != '\r' && c != '\n'),
{
    proof {
        lemma_without_line_breaks_keeps_the_rest(input@);
    }
    let mut cr = String::new();
    crate::text::push_char(&mut cr, '\r');
    let mut lf = String::new();
    crate::text::push_char(&mut lf, '\n');
    let empty = String::new();
    assert(cr@ =~= seq!['\r']);
    assert(lf@ =~= seq!['\n']);
    let step = replace_str(input, cr.as_str(), empty.as_str());
    replace_str(step.as_str(), lf.as_str(), empty.as_str())
}

/// The lowercase form of `s`, as `str::to_lowercase` computes it.
pub uninterp spec fn lowercase(s: Seq<char>) -> Seq<char>;

/// The ASCII lowercase form of a character.
pub open spec fn ascii_lower(c: char) -> char {
    if 'A' <= c <= 'Z' {
        ((c as u32) + 32) as char
    } else {
        c
    }
}

/// `str::to_lowercase`.
///
/// Claimed of the outside code: the result is a function of `s`; on ASCII
/// text it maps `A`..=`Z` to `a`..=`z` and keeps every other character, as
/// the documentation of Unicode lowercasing gives for ASCII. Nothing more is
/// claimed of other characters.
#[verifier::external_body]
fn to_lowercase(s: &str) -> (res: String)
    ensures
        res@ == lowercase(s@),
        vstd::utf8::is_ascii_chars(s@) ==> res@ == s@.map_values(|c: char| ascii_lower(c)),
{
    s.to_lowercase()
}

/// `s` without the line ending that reading a line leaves at its end: a
/// final `\r\n` or `\n`.
pub open spec fn without_line_end(s: Seq<char>) -> Seq<char> {
    if ends_with_seq(s, seq!['\r', '\n']) {
        s.subrange(0, s.len() - 2)
    } else if ends_with_seq(s, seq!['\n']) {
        s.subrange(0, s.len() - 1)
    } else {
        s
    }
}

/// Removing the line ending takes off exactly one final `\r\n` or `\n`, or
/// nothing when `s` does not end with `\n`: `s` is what is left followed by
/// what was taken off.
pub proof fn lemma_without_line_end_takes_the_ending(s: Seq<char>)
    ensures
        ({
            let kept = without_line_end(s);
            let taken = s.subrange(kept.len() as int, s.len() as int);
            &&& kept.len() <= s.len()
            &&& s == kept + taken
            &&& taken == Seq::<char>::empty() || taken == seq!['\n'] || taken == seq!['\r', '\n']
            &&& taken == Seq::<char>::empty() <==> !(s.len() > 0 && s.last() == '\n')
            &&& taken == seq!['\n'] ==> !(kept.len() > 0 && kept.last() == '\r')
        }),
{
    let kept = without_line_end(s);
    let taken = s.subrange(kept.len() as int, s.len() as int);
    assert(s =~= kept + taken);
    if ends_with_seq(s, seq!['\r', '\n']) {
        assert(taken =~= seq!['\r', '\n']);
    } else if ends_with_seq(s, seq!['\n']) {
        assert(taken =~= seq!['\n']);
        if kept.len() > 0 && kept.last() == '\r' {
            assert(s.subrange(s.len() - 2, s.len() as int) =~= seq!['\r', '\n']);
        }
    } else {
        assert(taken =~= Seq::<char>::empty());
        if s.len() > 0 && s.last() == '\n' {
            assert(s.subrange(s.len() - 1, s.len() as int) =~= seq!['\n']);
        }
    }
}

/// The answer `y` (in any case), once its line ending is removed, asks for
/// sub-folders to be walked.
pub open spec fn asks_deep(answer: Seq<char>) -> bool {
    lowercase(without_line_end(answer)) == seq!['y']
}

/// `s` without its final `\r\n` or `\n`.
pub fn strip_line_end(s: &str) -> (res: &str)
    ensures
        res@ == without_line_end(s@),
{
    let mut crlf = String::new();
    crate::text::push_char(&mut crlf, '\r');
    crate::text::push_char(&mut crlf, '\n');
    let mut lf = String::new();
    crate::text::push_char(&mut lf, '\n');
    assert(crlf@ =~= seq!['\r', '\n']);
    assert(lf@ =~= seq!['\n']);
    let n = s.unicode_len();
    if ends_with_str(s, crlf.as_str()) {
        s.substring_char(0, n - 2)
    } else if ends_with_str(s, lf.as_str()) {
        s.substring_char(0, n - 1)
    } else {
        s
    }
}

/// Whether the answer to "walk sub-folders? (y/n)" is yes: without its line
/// ending, and lowercased, it must be exactly `y`.
pub fn wants_deep(answer: &str) -> (res: bool)
    ensures
        res == asks_deep(answer@),
{
    let trimmed = strip_line_end(answer);
    let lower = to_lowercase(trimmed);
    let mut yes = String::new();
    crate::text::push_char(&mut yes, 'y');
    assert(yes@ =~= seq!['y']);
    lower == yes
}

/// What the file system said of a path that was looked up.
#[derive(Debug, Clone, Copy, PartialEq, Eq)]
pub enum PathProbe {
    /// The path exists (or was made absolute).
    Found,
    /// The path does not exist.
    Missing,
    /// Looking it up failed for another reason.
    Failed,
}

/// What to do next with a path that was looked up.
#[derive(Debug, Clone, Copy, PartialEq, Eq)]
pub enum PathStep {
    /// Use the path.
    Done,
    /// Give up with the error.
    Fail,
    /// Create the folder, then use it.
    CreateDir,
}

/// The source path must exist; a missing output folder is created; any
/// other failure is reported.
pub fn next_path_step(probe: PathProbe, is_input: bool) -> (res: PathStep)
    ensures
        res == match probe {
            PathProbe::Found => PathStep::Done,
            PathProbe::Failed => PathStep::Fail,
            PathProbe::Missing => if is_input { PathStep::Fail } else { PathStep::CreateDir },
        },
{
    match probe {
        PathProbe::Found => PathStep::Done,
        PathProbe::Failed => PathStep::Fail,
        PathProbe::Missing => if is_input {
            PathStep::Fail
        } else {
            PathStep::CreateDir
        },
    }
}

} // verus!
