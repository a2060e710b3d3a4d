//! Finding the fenced code block in a reply.

use vstd::prelude::*;

use regex::Regex;

use crate::constants::RES_TEXT_RANGE_REG;
use crate::text::occurs_at;

verus! {

/// The typed code of one source file, as found in a reply.
#[derive(Debug, PartialEq, Eq)]
pub struct CodeBlock {
    pub file_name: String,
    pub language: String,
    pub content: String,
}

impl Default for CodeBlock {
    fn default() -> (res: Self)
        ensures
            res.file_name@ == Seq::<char>::empty(),
            res.language@ == Seq::<char>::empty(),
            res.content@ == Seq::<char>::empty(),
    {
        CodeBlock { file_name: String::new(), language: String::new(), content: String::new() }
    }
}

/// Three backticks, which open and close a fenced code block.
pub open spec fn fence() -> Seq<char> {
    seq!['`', '`', '`']
}

/// A line break: `\n`, `\r\n` or `\r`.
pub open spec fn is_line_break(nl: Seq<char>) -> bool {
    nl == seq!['\n'] || nl == seq!['\r', '\n'] || nl == seq!['\r']
}

/// An ASCII character that `\w` admits: a letter, a digit or `_`.
pub open spec fn is_ascii_word_char(c: char) -> bool {
    ('a' <= c <= 'z') || ('A' <= c <= 'Z') || ('0' <= c <= '9') || c == '_'
}

/// `input` holds a fenced block with the given language and content: three
/// backticks, the language (a word: every ASCII character of it is a letter,
/// a digit or `_`), a line break (`\r\n` rather than `\r` where both fit),
/// the content, three backticks, and the content holds no three backticks
/// before the closing ones.
pub open spec fn fenced_in(input: Seq<char>, language: Seq<char>, content: Seq<char>) -> bool {
    &&& language.len() > 0
    &&& forall|k: int| 0 <= k < language.len() && (language[k] as u32) < 128 ==> is_ascii_word_char(#[trigger] language[k])
    &&& forall|k: int| 0 <= k < content.len() ==> !occurs_at(content + fence(), fence(), k)
    &&& exists|pre: Seq<char>, nl: Seq<char>, post: Seq<char>| {
        &&& is_line_break(nl)
        &&& nl == seq!['\r'] ==> !(content.len() > 0 && content[0] == '\n')
        &&& input == pre + fence() + language + nl + content + fence() + post
    }
}

/// The `language` and `content` groups of the first match of the regular
/// expression `pattern` in `input`, as the `regex` crate finds it.
pub uninterp spec fn regex_language_content(pattern: Seq<char>, input: Seq<char>) -> Option<(Seq<char>, Seq<char>)>;

/// Compiles `RES_TEXT_RANGE_REG` with `regex::Regex::new` and takes the
/// `language` and `content` groups of `Regex::captures` on `input`.
///
/// Claimed of the outside code: the result is a function of `pattern` and
/// `input`; a match is a fenced block of `input` (leftmost-first matching
/// with the lazy content group gives the shortest content before the closing
/// backticks; `\w+` matches at least one character, and the ASCII characters
/// that `\w` admits are letters, digits and `_`; the greedy `\r\n?` takes a
/// `\n` after `\r` when there is one). Not claimed: which
/// non-ASCII characters `\w` admits, and that a fenced block whose language
/// is a word is always found.
#[verifier::external_body]
fn capture_language_content(pattern: &str, input: &str) -> (res: Option<(String, String)>)
    requires
        pattern@ == RES_TEXT_RANGE_REG@,
    ensures
        match res {
            Some((language, content)) => regex_language_content(pattern@, input@) == Some(
                (language@, content@),
            ),
            None => regex_language_content(pattern@, input@) is None,
        },
        res matches Some((language, content)) ==> fenced_in(input@, language@, content@),
{
    let re = Regex::new(pattern).unwrap();
    re.captures(input).map(|caps| (caps["language"].to_string(), caps["content"].to_string()))
}

/// The code block named `file_name` made of a captured language and content,
/// if there is a capture.
pub fn code_block_from_captures(file_name: String, captures: Option<(String, String)>) -> (res: Option<CodeBlock>)
    ensures
        match captures {
            Some((language, content)) => res matches Some(b) && b.file_name@ == file_name@
                && b.language@ == language@ && b.content@ == content@,
            None => res is None,
        },
{
    match captures {
        Some((language, content)) => Some(CodeBlock { file_name, language, content }),
        None => None,
    }
}

impl CodeBlock {
    /// The first fenced code block of `input`, named `file_name`; `None` when
    /// `input` holds none.
    pub fn find_code_block(file_name: String, input: &str) -> (res: Option<Self>)
        ensures
            match regex_language_content(RES_TEXT_RANGE_REG@, input@) {
                Some((language, content)) => res matches Some(b) && b.file_name@ == file_name@
                    && b.language@ == language && b.content@ == content,
                None => res is None,
            },
            res matches Some(b) ==> fenced_in(input@, b.language@, b.content@),
    {
        let captures = capture_language_content(RES_TEXT_RANGE_REG, input);
        code_block_from_captures(file_name, captures)
    }
}

} // verus!
