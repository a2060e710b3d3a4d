//! From JavaScript source to the pieces of code that are sent for typing.

use vstd::prelude::*;

use crate::compile::parse::{parse_js_2_ast, parsed_export_items, without_bom};
use crate::compile::transform::{
    all_exports_ok, chunks_view, export_infos, exported_codes, ignored_names, module_export_items, names_view,
    pack_codes, visit_ast,
};
use crate::file_io::read::File;

pub mod gen;
pub mod parse;
pub mod transform;

verus! {

/// A source file with the chunks of code collected from it.
#[derive(Debug)]
pub struct Transformed {
    pub file: File,
    pub filter_code: Vec<Vec<String>>,
}

impl Default for Transformed {
    fn default() -> (res: Self)
        ensures
            res.file.name@ == Seq::<char>::empty(),
            res.file.content@ == Seq::<char>::empty(),
            res.file.relative_name@ == Seq::<char>::empty(),
            res.filter_code@ == Seq::<Vec<String>>::empty(),
    {
        Transformed { file: File::default(), filter_code: Vec::new() }
    }
}

/// Parses `file` as a module and collects the chunks of code of its
/// exported functions; hands back the resolved module too, and the names of
/// the functions left out as too long; `None` exactly when it does not parse or an export cannot be
/// collected.
pub fn transform_file(file: File) -> (res: Option<(Transformed, swc_ecma_ast::Module, Vec<String>)>)
    ensures
        res is Some <==> match parsed_export_items(file.content@) {
            Some(items) => all_exports_ok(without_bom(file.content@), export_infos(items)),
            None => false,
        },
        res matches Some((t, module, ignored)) ==> {
            &&& t.file == file
            &&& parsed_export_items(file.content@) matches Some(items) && {
                &&& module_export_items(module) == items
                &&& chunks_view(t.filter_code@) == pack_codes(
                    exported_codes(without_bom(file.content@), export_infos(items)),
                )
                &&& names_view(ignored@) == ignored_names(without_bom(file.content@), export_infos(items))
            }
        },
{
    match parse_js_2_ast(file.name.as_str(), file.content.as_str()) {
        Some((module, source)) => {
            assert(parsed_export_items(file.content@) == Some(module_export_items(module)));
            match visit_ast(module, source.as_str()) {
                Some((resolved, filter_code, ignored)) => Some((Transformed { file, filter_code }, resolved, ignored)),
                None => None,
            }
        },
        None => None,
    }
}

} // verus!
