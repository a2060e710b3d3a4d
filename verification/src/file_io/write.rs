//! Which declaration files are written, under which names and with what.

use vstd::prelude::*;

use crate::compile::gen::CodeBlock;

verus! {

/// `.d.ts`
pub open spec fn dts_extension() -> Seq<char> {
    seq!['.', 'd', '.', 't', 's']
}

/// The name of the declaration file for `file_name`: `file_name.d.ts`.
pub fn dts_file_name(file_name: &str) -> (res: String)
    ensures
        res@ == file_name@ + dts_extension(),
{
    let mut res = file_name.to_owned();
    crate::text::push_char(&mut res, '.');
    crate::text::push_char(&mut res, 'd');
    crate::text::push_char(&mut res, '.');
    crate::text::push_char(&mut res, 't');
    crate::text::push_char(&mut res, 's');
    assert(res@ =~= file_name@ + dts_extension());
    res
}

/// What the output path turned out to be.
#[derive(Debug, Clone, Copy, PartialEq, Eq)]
pub enum OutputTarget {
    /// A folder: each block goes to a file of its own in it.
    Dir,
    /// A file: the first block goes to a file beside it.
    File,
    /// Anything else.
    Other,
}

/// One declaration file to write: its name (relative to the output folder,
/// or a file name beside the output file) and its content.
#[derive(Debug, PartialEq, Eq)]
pub struct DtsWrite {
    pub file_name: String,
    pub content: String,
}

/// The output path is neither a folder nor a file.
#[derive(Debug, Clone, Copy, PartialEq, Eq)]
pub struct UnsupportedEntry;

/// The declaration file of `block`.
fn dts_write_of(block: &CodeBlock) -> (res: DtsWrite)
    ensures
        res.file_name@ == block.file_name@ + dts_extension(),
        res.content@ == block.content@,
{
    DtsWrite { file_name: dts_file_name(block.file_name.as_str()), content: block.content.clone() }
}

/// The declaration files to write for `blocks` into an output path of the
/// kind `target`: into a folder, one `name.d.ts` per block, in order; beside
/// a file, only the one of the first block (there must be one); anything
/// else is refused.
pub fn plan_dts_files(target: OutputTarget, blocks: &Vec<CodeBlock>) -> (res: Result<Vec<DtsWrite>, UnsupportedEntry>)
    requires
        target == OutputTarget::File ==> blocks@.len() > 0,
    ensures
        match target {
            OutputTarget::Dir => res matches Ok(writes) && writes@.len() == blocks@.len() && forall|i: int|
                0 <= i < blocks@.len() ==> (#[trigger] writes@[i]).file_name@ == blocks@[i].file_name@
                    + dts_extension() && writes@[i].content@ == blocks@[i].content@,
            OutputTarget::File => res matches Ok(writes) && writes@.len() == 1
                && writes@[0].file_name@ == blocks@[0].file_name@ + dts_extension()
                && writes@[0].content@ == blocks@[0].content@,
            OutputTarget::Other => res is Err,
        },
{
    match target {
        OutputTarget::Dir => {
            let mut writes: Vec<DtsWrite> = Vec::new();
            let mut i: usize = 0;
            while i < blocks.len()
                invariant
                    i <= blocks@.len(),
                    writes@.len() == i,
                    forall|k: int| 0 <= k < i ==> (#[trigger] writes@[k]).file_name@
                        == blocks@[k].file_name@ + dts_extension() && writes@[k].content@
                        == blocks@[k].content@,
                decreases blocks@.len() - i,
            {
                writes.push(dts_write_of(&blocks[i]));
                i = i + 1;
            }
            Ok(writes)
        },
        OutputTarget::File => {
            let mut writes: Vec<DtsWrite> = Vec::new();
            writes.push(dts_write_of(&blocks[0]));
            Ok(writes)
        },
        OutputTarget::Other => Err(UnsupportedEntry),
    }
}

} // verus!
