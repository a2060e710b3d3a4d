//! Parsing JavaScript source into a module.

use vstd::prelude::*;

use swc_common::{sync::Lrc, FileName, SourceMap};
use swc_ecma_parser::{Parser, StringInput, Syntax};

use crate::compile::transform::{module_export_items, ExportDeclInfo};

verus! {

/// A parsed JavaScript module (`swc_ecma_ast::Module`).
#[verifier::external_type_specification]
#[verifier::external_body]
pub struct ExModule(swc_ecma_ast::Module);

/// The source text a source map keeps of `code`: a leading byte order mark
/// is dropped.
pub open spec fn without_bom(code: Seq<char>) -> Seq<char> {
    if code.len() > 0 && code[0] == '\u{feff}' {
        code.drop_first()
    } else {
        code
    }
}

/// Only a leading byte order mark is dropped: the text is the mark, when
/// `code` starts with one, followed by what is kept.
pub proof fn lemma_without_bom_drops_only_the_mark(code: Seq<char>)
    ensures
        code.len() > 0 && code[0] == '\u{feff}' ==> code == seq!['\u{feff}'] + without_bom(code),
        !(code.len() > 0 && code[0] == '\u{feff}') ==> without_bom(code) == code,
{
    if code.len() > 0 && code[0] == '\u{feff}' {
        assert(code =~= seq!['\u{feff}'] + code.drop_first());
    }
}

/// What the logic reads of the top-level items of the module that parsing
/// `code` gives (see `module_export_items`); `None` when `code` does not
/// parse. The file name plays no part: it only labels the source.
pub uninterp spec fn parsed_export_items(code: Seq<char>) -> Option<Seq<Option<ExportDeclInfo>>>;

/// Parses `code` as an ECMAScript module named `file_name` with
/// `swc_ecma_parser::Parser::parse_module`, in a source map of its own, so
/// that the spans of the module are 1-based byte positions in the returned
/// source text.
///
/// Claimed of the outside code: whether it parses, and what the module's
/// items are, is a function of `code` alone (the file name only labels the
/// source, and each call uses a fresh source map whose first file starts at
/// byte 1); on success the returned text is `code` without a leading byte
/// order mark (`SourceMap::new_source_file` drops it).
///
/// Not claimed: which sources parse. Nor that the call returns on every
/// input: the parser recurses once per level of syntactic nesting and grows
/// its stack only around the body of an `if` statement, so deeply nested
/// input can exhaust the stack of the calling thread, and the process then
/// aborts. How deep is too deep depends on the size of that stack, which is
/// a property of the machine and the caller, not of `code`, so no
/// `requires` here can state it; the program runs this on a thread with a
/// large stack. Errors the parser recovers from are not reported.
#[verifier::external_body]
pub fn parse_js_2_ast(file_name: &str, code: &str) -> (res: Option<(swc_ecma_ast::Module, String)>)
    ensures
        match res {
            Some((module, src)) => parsed_export_items(code@) == Some(
                module_export_items(module),
            ) && src@ == without_bom(code@),
            None => parsed_export_items(code@) is None,
        },
{
    let source_map: Lrc<SourceMap> = Default::default();
    let fm = source_map.new_source_file(Lrc::new(FileName::Custom(file_name.into())), code.to_string());
    let mut parser = Parser::new(Syntax::Es(Default::default()), StringInput::from(&*fm), None);
    parser.parse_module().ok().map(|module| (module, fm.src.to_string()))
}

} // verus!
