//! Picks the exported functions out of a module and packs their source code
//! into chunks small enough for one request each.

use vstd::prelude::*;
use vstd::utf8::*;
use vstd::string::*;

use swc_common::{Globals, Mark, GLOBALS};
use swc_ecma_ast::{Decl, Expr, ModuleDecl, ModuleItem, Program};
use swc_ecma_transforms_base::resolver;

use crate::constants::FUNCTION_CHUNK_MAX_SIZE;
use crate::text::{byte_len, str_byte_len};

verus! {

broadcast use {encode_utf8_valid_utf8, encode_utf8_decode_utf8};

/// Total size in bytes of the pieces of code in one chunk.
pub open spec fn chunk_size(chunk: Seq<Seq<char>>) -> nat
    decreases chunk.len(),
{
    if chunk.len() == 0 {
        0
    } else {
        chunk_size(chunk.drop_last()) + byte_len(chunk.last())
    }
}

/// Adds one piece of code to the chunks: a piece longer than
/// `FUNCTION_CHUNK_MAX_SIZE` bytes is too long for any request and is left
/// out; another joins the last chunk if the chunk stays within the limit,
/// else it opens a new one.
pub open spec fn add_code(chunks: Seq<Seq<Seq<char>>>, code: Seq<char>) -> Seq<Seq<Seq<char>>> {
    if byte_len(code) > FUNCTION_CHUNK_MAX_SIZE {
        chunks
    } else if chunks.len() == 0 {
        seq![seq![code]]
    } else if chunk_size(chunks.last()) + byte_len(code) > FUNCTION_CHUNK_MAX_SIZE {
        chunks.push(seq![code])
    } else {
        chunks.drop_last().push(chunks.last().push(code))
    }
}

/// The chunks that adding `codes` one by one, in order, builds from none.
pub open spec fn pack_codes(codes: Seq<Seq<char>>) -> Seq<Seq<Seq<char>>>
    decreases codes.len(),
{
    if codes.len() == 0 {
        seq![]
    } else {
        add_code(pack_codes(codes.drop_last()), codes.last())
    }
}

/// The pieces of `codes` that are not too long for a request, in order.
pub open spec fn fitting_codes(codes: Seq<Seq<char>>) -> Seq<Seq<char>>
    decreases codes.len(),
{
    if codes.len() == 0 {
        seq![]
    } else if byte_len(codes.last()) > FUNCTION_CHUNK_MAX_SIZE {
        fitting_codes(codes.drop_last())
    } else {
        fitting_codes(codes.drop_last()).push(codes.last())
    }
}

/// Every chunk holds at least one piece and stays within
/// `FUNCTION_CHUNK_MAX_SIZE` bytes.
pub open spec fn chunks_wf(chunks: Seq<Seq<Seq<char>>>) -> bool {
    forall|i: int|
        0 <= i < chunks.len() ==> {
            &&& (#[trigger] chunks[i]).len() > 0
            &&& chunk_size(chunks[i]) <= FUNCTION_CHUNK_MAX_SIZE
        }
}

/// The chunks of strings, seen as character sequences.
pub open spec fn chunks_view(codes: Seq<Vec<String>>) -> Seq<Seq<Seq<char>>> {
    codes.map_values(|chunk: Vec<String>| chunk@.map_values(|s: String| s@))
}

/// The byte range `[start - 1, end - 1)` lies within the UTF-8 encoding of
/// `src` and starts and ends on character boundaries (positions count from 1,
/// as a parser's spans of a source file do).
pub open spec fn slice_ok(src: Seq<char>, start: int, end: int) -> bool {
    let bytes = encode_utf8(src);
    &&& 1 <= start <= end
    &&& end - 1 <= bytes.len()
    &&& is_char_boundary(bytes, start - 1)
    &&& is_char_boundary(bytes, end - 1)
}

/// The text of `src` between the 1-based byte positions `start` and `end`.
pub open spec fn source_slice(src: Seq<char>, start: int, end: int) -> Seq<char> {
    decode_utf8(encode_utf8(src).subrange(start - 1, end - 1))
}

proof fn lemma_suffix_boundary(bytes: Seq<u8>, lo: int, hi: int)
    requires
        valid_utf8(bytes),
        0 <= lo <= hi <= bytes.len(),
        is_char_boundary(bytes, lo),
        is_char_boundary(bytes, hi),
    ensures
        valid_utf8(bytes.subrange(lo, bytes.len() as int)),
        is_char_boundary(bytes.subrange(lo, bytes.len() as int), hi - lo),
{
    let rest = bytes.subrange(lo, bytes.len() as int);
    valid_utf8_split(bytes, lo);
    if hi == lo {
    } else if hi == bytes.len() {
        is_char_boundary_start_end_of_seq(rest);
    } else {
        is_char_boundary_iff_not_is_continuation_byte(bytes, hi);
        is_char_boundary_iff_not_is_continuation_byte(rest, hi - lo);
    }
}

proof fn lemma_chunk_size_prefix(chunk: Seq<Seq<char>>, j: int)
    requires
        0 <= j <= chunk.len(),
    ensures
        chunk_size(chunk.take(j)) <= chunk_size(chunk),
    decreases chunk.len(),
{
    if j < chunk.len() {
        lemma_chunk_size_prefix(chunk.drop_last(), j);
        assert(chunk.drop_last().take(j) =~= chunk.take(j));
    } else {
        assert(chunk.take(j) =~= chunk);
    }
}

proof fn lemma_chunk_size_step(chunk: Seq<Seq<char>>, j: int)
    requires
        0 <= j < chunk.len(),
    ensures
        chunk_size(chunk.take(j + 1)) == chunk_size(chunk.take(j)) + byte_len(chunk[j]),
{
    assert(chunk.take(j + 1).drop_last() =~= chunk.take(j));
}

proof fn lemma_add_code_wf(chunks: Seq<Seq<Seq<char>>>, code: Seq<char>)
    requires
        chunks_wf(chunks),
    ensures
        chunks_wf(add_code(chunks, code)),
{
    let res = add_code(chunks, code);
    assert(seq![code].drop_last() =~= Seq::<Seq<char>>::empty());
    assert(chunk_size(Seq::<Seq<char>>::empty()) == 0);
    assert(chunk_size(seq![code]) == byte_len(code));
    if byte_len(code) > FUNCTION_CHUNK_MAX_SIZE {
    } else if chunks.len() > 0 && chunk_size(chunks.last()) + byte_len(code) <= FUNCTION_CHUNK_MAX_SIZE {
        assert(chunks.last().push(code).drop_last() =~= chunks.last());
        assert forall|i: int| 0 <= i < res.len() implies {
            &&& (#[trigger] res[i]).len() > 0
            &&& chunk_size(res[i]) <= FUNCTION_CHUNK_MAX_SIZE
        } by {
            if i < chunks.len() - 1 {
                assert(res[i] == chunks[i]);
            }
        }
    } else if chunks.len() > 0 {
        assert forall|i: int| 0 <= i < res.len() implies {
            &&& (#[trigger] res[i]).len() > 0
            &&& chunk_size(res[i]) <= FUNCTION_CHUNK_MAX_SIZE
        } by {
            if i < chunks.len() {
                assert(res[i] == chunks[i]);
            }
        }
    }
}

/// Adding a piece keeps every piece added before, in order: a piece within
/// `FUNCTION_CHUNK_MAX_SIZE` bytes is added once, after them, in one piece;
/// a longer one leaves the chunks as they are.
pub proof fn lemma_add_code_keeps(chunks: Seq<Seq<Seq<char>>>, code: Seq<char>)
    ensures
        byte_len(code) <= FUNCTION_CHUNK_MAX_SIZE ==> add_code(chunks, code).flatten()
            == chunks.flatten().push(code),
        byte_len(code) > FUNCTION_CHUNK_MAX_SIZE ==> add_code(chunks, code) == chunks,
{
    broadcast use Seq::lemma_flatten_push;

    if byte_len(code) <= FUNCTION_CHUNK_MAX_SIZE {
        if chunks.len() == 0 {
            assert(Seq::<Seq<Seq<char>>>::empty().push(seq![code]) =~= seq![seq![code]]);
            assert(Seq::<Seq<Seq<char>>>::empty().flatten() =~= Seq::<Seq<char>>::empty());
            assert(chunks =~= Seq::<Seq<Seq<char>>>::empty());
            assert(Seq::<Seq<char>>::empty() + seq![code] =~= Seq::<Seq<char>>::empty().push(code));
        } else if chunk_size(chunks.last()) + byte_len(code) <= FUNCTION_CHUNK_MAX_SIZE {
            assert(chunks =~= chunks.drop_last().push(chunks.last()));
            assert(chunks.last().push(code) =~= chunks.last() + seq![code]);
            assert(chunks.flatten() + seq![code] =~= chunks.flatten().push(code));
        } else {
            assert(chunks.flatten() + seq![code] =~= chunks.flatten().push(code));
        }
    }
}

/// What the logic reads of one declarator of an exported `var`, `let` or
/// `const` declaration.
pub struct VarDeclaratorInfo {
    /// The bound name, when the declarator binds a plain identifier.
    pub name: Option<String>,
    /// Whether the declarator is initialised with an arrow function.
    pub init_is_arrow: bool,
}

/// What the logic reads of the declaration inside an `export` declaration.
pub enum DeclInfo {
    /// `export function name(..) {..}`
    Fn { name: String },
    /// `export var|let|const ...`, with its declarators in order.
    Var { declarators: Vec<VarDeclaratorInfo> },
    /// Any other exported declaration (class, type, ...).
    Other,
}

/// One `export` declaration of a module: its span in the source (1-based
/// byte positions, end exclusive) and what it declares.
pub struct ExportDeclInfo {
    pub lo: u32,
    pub hi: u32,
    pub decl: DeclInfo,
}

/// Whether the source code of the export is collected: exported functions,
/// and exported variables whose first declarator is an arrow function.
pub open spec fn is_collected(d: ExportDeclInfo) -> bool {
    match d.decl {
        DeclInfo::Fn { .. } => true,
        DeclInfo::Var { declarators } => declarators@.len() > 0 && declarators@[0].init_is_arrow,
        DeclInfo::Other => false,
    }
}

/// An export that can be collected without failing: its span is a valid
/// slice of the source, and a collected arrow function is bound to a name.
pub open spec fn export_ok(src: Seq<char>, d: ExportDeclInfo) -> bool {
    is_collected(d) ==> {
        &&& slice_ok(src, d.lo as int, d.hi as int)
        &&& (d.decl matches DeclInfo::Var { declarators } ==> declarators@[0].name is Some)
    }
}

/// Every export of `decls` can be collected from `src` without failing.
pub open spec fn all_exports_ok(src: Seq<char>, decls: Seq<ExportDeclInfo>) -> bool {
    forall|i: int| 0 <= i < decls.len() ==> export_ok(src, #[trigger] decls[i])
}

/// The pieces of source code collected from `decls`, in order.
pub open spec fn exported_codes(src: Seq<char>, decls: Seq<ExportDeclInfo>) -> Seq<Seq<char>>
    decreases decls.len(),
{
    if decls.len() == 0 {
        seq![]
    } else if is_collected(decls.last()) {
        exported_codes(src, decls.drop_last()).push(
            source_slice(src, decls.last().lo as int, decls.last().hi as int),
        )
    } else {
        exported_codes(src, decls.drop_last())
    }
}

/// The name of a collected export: the function's, or the one the arrow
/// function is bound to.
pub open spec fn export_name(d: ExportDeclInfo) -> Seq<char> {
    match d.decl {
        DeclInfo::Fn { name } => name@,
        DeclInfo::Var { declarators } => match declarators@[0].name {
            Some(name) => name@,
            None => Seq::empty(),
        },
        DeclInfo::Other => Seq::empty(),
    }
}

/// A collected export whose source code is too long for any request.
pub open spec fn is_ignored(src: Seq<char>, d: ExportDeclInfo) -> bool {
    is_collected(d) && byte_len(source_slice(src, d.lo as int, d.hi as int)) > FUNCTION_CHUNK_MAX_SIZE
}

/// The names of the exports of `decls` that are left out as too long, in order.
pub open spec fn ignored_names(src: Seq<char>, decls: Seq<ExportDeclInfo>) -> Seq<Seq<char>>
    decreases decls.len(),
{
    if decls.len() == 0 {
        seq![]
    } else if is_ignored(src, decls.last()) {
        ignored_names(src, decls.drop_last()).push(export_name(decls.last()))
    } else {
        ignored_names(src, decls.drop_last())
    }
}

/// Collects the source code of exported functions from one module.
pub struct ExportFnCollector<'a> {
    pub collected_codes: Vec<Vec<String>>,
    pub source_code: &'a str,
}

impl<'a> View for ExportFnCollector<'a> {
    /// The source code and the collected chunks, as character sequences.
    type V = (Seq<char>, Seq<Seq<Seq<char>>>);

    open spec fn view(&self) -> (Seq<char>, Seq<Seq<Seq<char>>>) {
        (self.source_code@, chunks_view(self.collected_codes@))
    }
}

impl<'a> ExportFnCollector<'a> {
    /// The collected chunks, seen as character sequences.
    pub open spec fn chunks(&self) -> Seq<Seq<Seq<char>>> {
        chunks_view(self.collected_codes@)
    }

    /// A collector for `source_code` that holds nothing yet.
    pub fn new(source_code: &'a str) -> (res: Self)
        ensures
            res.source_code == source_code,
            res@ == (source_code@, Seq::<Seq<Seq<char>>>::empty()),
            chunks_wf(res.chunks()),
    {
        let res = ExportFnCollector { collected_codes: Vec::new(), source_code };
        assert(res@.1 =~= Seq::<Seq<Seq<char>>>::empty());
        res
    }

    /// Size in bytes of the last chunk.
    fn last_chunk_size(chunk: &Vec<String>) -> (size: usize)
        requires
            chunk@.len() > 0,
            chunk_size(chunk@.map_values(|s: String| s@)) <= FUNCTION_CHUNK_MAX_SIZE,
        ensures
            size == chunk_size(chunk@.map_values(|s: String| s@)),
    {
        let ghost view = chunk@.map_values(|s: String| s@);
        let mut total: usize = 0;
        let mut j: usize = 0;
        assert(view.take(0) =~= Seq::<Seq<char>>::empty());
        while j < chunk.len()
            invariant
                view == chunk@.map_values(|s: String| s@),
                j <= chunk@.len(),
                chunk_size(view) <= FUNCTION_CHUNK_MAX_SIZE,
                total == chunk_size(view.take(j as int)),
            decreases chunk@.len() - j,
        {
            let piece = chunk[j].as_str();
            let len = str_byte_len(piece);
            proof {
                assert(view[j as int] == chunk@[j as int]@);
                lemma_chunk_size_step(view, j as int);
                lemma_chunk_size_prefix(view, j + 1);
            }
            total = total + len;
            j = j + 1;
        }
        assert(view.take(j as int) =~= view);
        total
    }

    /// Adds the source code between the 1-based byte positions `start` and
    /// `end` to the chunks: to the last chunk while it stays within
    /// `FUNCTION_CHUNK_MAX_SIZE` bytes, else as a new chunk. Code longer than
    /// that cannot be sent and is left out; `true` tells that it was.
    pub fn get_source_code(&mut self, start: u32, end: u32) -> (ignored: bool)
        requires
            chunks_wf(old(self).chunks()),
            slice_ok(old(self).source_code@, start as int, end as int),
        ensures
            chunks_wf(final(self).chunks()),
            final(self)@ == (old(self)@.0, add_code(
                old(self)@.1,
                source_slice(old(self)@.0, start as int, end as int),
            )),
            ignored == (byte_len(source_slice(old(self).source_code@, start as int, end as int))
                > FUNCTION_CHUNK_MAX_SIZE),
    {
        let ghost old_chunks = self.chunks();
        let src = self.source_code;
        let ghost bytes = encode_utf8(src@);
        let lo = (start - 1) as usize;
        let hi = (end - 1) as usize;
        proof {
            lemma_suffix_boundary(bytes, lo as int, hi as int);
        }
        let (_, rest) = src.split_at(lo);
        let (piece, _) = rest.split_at(hi - lo);
        let code = piece.to_owned();
        let code_len = str_byte_len(piece);
        proof {
            assert(piece.spec_bytes() =~= bytes.subrange(lo as int, hi as int));
            assert(code@ == source_slice(src@, start as int, end as int));
            assert(code_len == byte_len(code@));
            lemma_add_code_wf(old_chunks, code@);
        }
        if code_len > FUNCTION_CHUNK_MAX_SIZE {
            return true;
        }
        if self.collected_codes.len() == 0 {
            let mut first: Vec<String> = Vec::new();
            first.push(code);
            self.collected_codes.push(first);
            assert(self.chunks() =~~= add_code(old_chunks, code@));
            return false;
        }
        let mut last_v = self.collected_codes.pop().unwrap();
        proof {
            assert(self.collected_codes@ =~= old(self).collected_codes@.drop_last());
            assert(old_chunks.last() == last_v@.map_values(|s: String| s@));
        }
        let last_size = Self::last_chunk_size(&last_v);
        if code_len > FUNCTION_CHUNK_MAX_SIZE - last_size {
            self.collected_codes.push(last_v);
            let mut next: Vec<String> = Vec::new();
            next.push(code);
            self.collected_codes.push(next);
            assert(self.chunks() =~~= add_code(old_chunks, code@));
        } else {
            last_v.push(code);
            self.collected_codes.push(last_v);
            assert(self.chunks() =~~= add_code(old_chunks, code@));
        }
        false
    }
}


impl<'a> ExportFnCollector<'a> {
    /// Collects the source code of one `export` declaration when it is an
    /// exported function, or an exported variable whose first declarator is
    /// an arrow function; any other export leaves the chunks as they are.
    /// When the code is too long to be sent, it is left out and the name of
    /// the function is handed back, so that the user can be told.
    pub fn match_export_function_or_arrow_expr(&mut self, n: &ExportDeclInfo) -> (ignored: Option<String>)
        requires
            chunks_wf(old(self).chunks()),
            export_ok(old(self).source_code@, *n),
        ensures
            chunks_wf(final(self).chunks()),
            final(self)@ == if is_collected(*n) {
                (old(self)@.0, add_code(old(self)@.1, source_slice(old(self)@.0, n.lo as int, n.hi as int)))
            } else {
                old(self)@
            },
            match ignored {
                Some(name) => is_ignored(old(self).source_code@, *n) && name@ == export_name(*n),
                None => !is_ignored(old(self).source_code@, *n),
            },
    {
        match &n.decl {
            DeclInfo::Fn { name } => {
                if self.get_source_code(n.lo, n.hi) {
                    return Some(name.clone());
                }
                None
            },
            DeclInfo::Var { declarators } => {
                if declarators.len() > 0 && declarators[0].init_is_arrow {
                    if self.get_source_code(n.lo, n.hi) {
                        return match &declarators[0].name {
                            Some(name) => Some(name.clone()),
                            None => Some(String::new()),
                        };
                    }
                }
                None
            },
            DeclInfo::Other => None,
        }
    }
}

proof fn lemma_exported_codes_step(src: Seq<char>, decls: Seq<ExportDeclInfo>, i: int)
    requires
        0 <= i < decls.len(),
    ensures
        exported_codes(src, decls.take(i + 1)) == if is_collected(decls[i]) {
            exported_codes(src, decls.take(i)).push(source_slice(src, decls[i].lo as int, decls[i].hi as int))
        } else {
            exported_codes(src, decls.take(i))
        },
        pack_codes(exported_codes(src, decls.take(i + 1))) == if is_collected(decls[i]) {
            add_code(pack_codes(exported_codes(src, decls.take(i))), source_slice(src, decls[i].lo as int, decls[i].hi as int))
        } else {
            pack_codes(exported_codes(src, decls.take(i)))
        },
        ignored_names(src, decls.take(i + 1)) == if is_ignored(src, decls[i]) {
            ignored_names(src, decls.take(i)).push(export_name(decls[i]))
        } else {
            ignored_names(src, decls.take(i))
        },
{
    assert(decls.take(i + 1).drop_last() =~= decls.take(i));
    if is_collected(decls[i]) {
        let codes = exported_codes(src, decls.take(i));
        let code = source_slice(src, decls[i].lo as int, decls[i].hi as int);
        assert(codes.push(code).drop_last() =~= codes);
    }
}

/// The names of functions, as character sequences.
pub open spec fn names_view(names: Seq<String>) -> Seq<Seq<char>> {
    names.map_values(|n: String| n@)
}

/// The chunks of source code of the exported functions declared by `decls`
/// (the `export` declarations of a module, in order) in `source_code`, and
/// the names of those left out as too long.
pub fn collect_export_codes(source_code: &str, decls: &Vec<ExportDeclInfo>) -> (res: (Vec<Vec<String>>, Vec<String>))
    requires
        forall|i: int| 0 <= i < decls@.len() ==> export_ok(source_code@, #[trigger] decls@[i]),
    ensures
        chunks_view(res.0@) == pack_codes(exported_codes(source_code@, decls@)),
        chunks_wf(chunks_view(res.0@)),
        chunks_view(res.0@).flatten() == fitting_codes(exported_codes(source_code@, decls@)),
        names_view(res.1@) == ignored_names(source_code@, decls@),
{
    let mut collector = ExportFnCollector::new(source_code);
    let mut ignored: Vec<String> = Vec::new();
    let mut i: usize = 0;
    assert(decls@.take(0) =~= Seq::<ExportDeclInfo>::empty());
    assert(names_view(ignored@) =~= ignored_names(source_code@, decls@.take(0)));
    while i < decls.len()
        invariant
            i <= decls@.len(),
            forall|k: int| 0 <= k < decls@.len() ==> export_ok(source_code@, #[trigger] decls@[k]),
            collector@.0 == source_code@,
            chunks_wf(collector.chunks()),
            collector.chunks() == pack_codes(exported_codes(source_code@, decls@.take(i as int))),
            names_view(ignored@) == ignored_names(source_code@, decls@.take(i as int)),
        decreases decls@.len() - i,
    {
        proof {
            lemma_exported_codes_step(source_code@, decls@, i as int);
        }
        let ghost before = ignored@;
        if let Some(name) = collector.match_export_function_or_arrow_expr(&decls[i]) {
            ignored.push(name);
            assert(names_view(ignored@) =~= names_view(before).push(export_name(decls@[i as int])));
        }
        i = i + 1;
    }
    assert(decls@.take(i as int) =~= decls@);
    proof {
        lemma_pack_keeps_codes(exported_codes(source_code@, decls@));
    }
    (collector.collected_codes, ignored)
}

/// Whether `d` can be collected from `source_code` without failing.
pub fn check_export(source_code: &str, d: &ExportDeclInfo) -> (ok: bool)
    ensures
        ok == export_ok(source_code@, *d),
{
    let collected = match &d.decl {
        DeclInfo::Fn { .. } => true,
        DeclInfo::Var { declarators } => declarators.len() > 0 && declarators[0].init_is_arrow,
        DeclInfo::Other => false,
    };
    if !collected {
        return true;
    }
    let n = str_byte_len(source_code);
    if d.lo < 1 || d.lo > d.hi || (d.hi - 1) as usize > n {
        return false;
    }
    if !source_code.is_char_boundary((d.lo - 1) as usize) || !source_code.is_char_boundary(
        (d.hi - 1) as usize,
    ) {
        return false;
    }
    match &d.decl {
        DeclInfo::Var { declarators } => declarators[0].name.is_some(),
        _ => true,
    }
}

/// `collect_export_codes`, or `None` when some export cannot be collected:
/// a span that is not a valid slice of the source, or an exported arrow
/// function not bound to a plain name.
pub fn try_collect_export_codes(source_code: &str, decls: &Vec<ExportDeclInfo>) -> (res: Option<
    (Vec<Vec<String>>, Vec<String>),
>)
    ensures
        res is Some <==> all_exports_ok(source_code@, decls@),
        res matches Some((codes, ignored)) ==> chunks_view(codes@) == pack_codes(
            exported_codes(source_code@, decls@),
        ) && names_view(ignored@) == ignored_names(source_code@, decls@),
{
    let mut i: usize = 0;
    while i < decls.len()
        invariant
            i <= decls@.len(),
            forall|k: int| 0 <= k < i ==> export_ok(source_code@, #[trigger] decls@[k]),
        decreases decls@.len() - i,
    {
        if !check_export(source_code, &decls[i]) {
            return None;
        }
        i = i + 1;
    }
    Some(collect_export_codes(source_code, decls))
}

/// Packing keeps every piece of code that fits in a request, in order, and
/// only those: the chunks, joined, are the pieces packed that are within
/// `FUNCTION_CHUNK_MAX_SIZE` bytes.
pub proof fn lemma_pack_keeps_codes(codes: Seq<Seq<char>>)
    ensures
        pack_codes(codes).flatten() == fitting_codes(codes),
    decreases codes.len(),
{
    if codes.len() > 0 {
        lemma_pack_keeps_codes(codes.drop_last());
        lemma_add_code_keeps(pack_codes(codes.drop_last()), codes.last());
    }
}

/// The pieces that fit in a request are exactly those of at most
/// `FUNCTION_CHUNK_MAX_SIZE` bytes, in order: a piece that is too long takes
/// away no piece after it.
pub proof fn lemma_fitting_codes_are_the_short_ones(codes: Seq<Seq<char>>)
    ensures
        fitting_codes(codes) == codes.filter(|c: Seq<char>| byte_len(c) <= FUNCTION_CHUNK_MAX_SIZE),
    decreases codes.len(),
{
    reveal(Seq::filter);
    if codes.len() > 0 {
        lemma_fitting_codes_are_the_short_ones(codes.drop_last());
    }
}

/// The pieces of code collected from a list of exports are the source slices
/// of exactly its collected exports (functions, and variables bound to arrow
/// functions), in order.
pub proof fn lemma_exported_codes_are_the_collected(src: Seq<char>, decls: Seq<ExportDeclInfo>)
    ensures
        exported_codes(src, decls) == decls.filter(|d: ExportDeclInfo| is_collected(d)).map_values(
            |d: ExportDeclInfo| source_slice(src, d.lo as int, d.hi as int),
        ),
    decreases decls.len(),
{
    reveal(Seq::filter);
    if decls.len() > 0 {
        lemma_exported_codes_are_the_collected(src, decls.drop_last());
        let before = decls.drop_last().filter(|d: ExportDeclInfo| is_collected(d));
        let d = decls.last();
        if is_collected(d) {
            assert(before.push(d).map_values(|d: ExportDeclInfo| source_slice(src, d.lo as int, d.hi as int))
                =~= before.map_values(|d: ExportDeclInfo| source_slice(src, d.lo as int, d.hi as int)).push(
                source_slice(src, d.lo as int, d.hi as int),
            ));
        }
    }
}

/// The names left out are those of exactly the collected exports whose
/// source code is too long for a request, in order.
pub proof fn lemma_ignored_names_are_the_long_ones(src: Seq<char>, decls: Seq<ExportDeclInfo>)
    ensures
        ignored_names(src, decls) == decls.filter(|d: ExportDeclInfo| is_ignored(src, d)).map_values(
            |d: ExportDeclInfo| export_name(d),
        ),
    decreases decls.len(),
{
    reveal(Seq::filter);
    if decls.len() > 0 {
        lemma_ignored_names_are_the_long_ones(src, decls.drop_last());
        let before = decls.drop_last().filter(|d: ExportDeclInfo| is_ignored(src, d));
        let d = decls.last();
        if is_ignored(src, d) {
            assert(before.push(d).map_values(|d: ExportDeclInfo| export_name(d)) =~= before.map_values(
                |d: ExportDeclInfo| export_name(d),
            ).push(export_name(d)));
        }
    }
}

/// Every chunk built by packing holds at least one piece and stays within
/// `FUNCTION_CHUNK_MAX_SIZE` bytes.
pub proof fn lemma_pack_within_limit(codes: Seq<Seq<char>>)
    ensures
        chunks_wf(pack_codes(codes)),
    decreases codes.len(),
{
    if codes.len() > 0 {
        lemma_pack_within_limit(codes.drop_last());
        lemma_add_code_wf(pack_codes(codes.drop_last()), codes.last());
    }
}

/// Packing is greedy: no chunk could have taken the first piece of the
/// chunk after it without going over `FUNCTION_CHUNK_MAX_SIZE` bytes.
pub proof fn lemma_pack_greedy(codes: Seq<Seq<char>>)
    ensures
        forall|i: int|
            0 <= i < pack_codes(codes).len() - 1 ==> chunk_size(#[trigger] pack_codes(codes)[i])
                + byte_len(pack_codes(codes)[i + 1][0]) > FUNCTION_CHUNK_MAX_SIZE,
    decreases codes.len(),
{
    if codes.len() > 0 {
        let prev = pack_codes(codes.drop_last());
        let code = codes.last();
        let res = pack_codes(codes);
        lemma_pack_greedy(codes.drop_last());
        lemma_pack_within_limit(codes.drop_last());
        assert forall|i: int| 0 <= i < res.len() - 1 implies chunk_size(#[trigger] res[i])
            + byte_len(res[i + 1][0]) > FUNCTION_CHUNK_MAX_SIZE by {
            if byte_len(code) > FUNCTION_CHUNK_MAX_SIZE {
            } else if prev.len() > 0 && chunk_size(prev.last()) + byte_len(code) <= FUNCTION_CHUNK_MAX_SIZE {
                assert(res[i] == prev[i]);
                if i + 1 == prev.len() - 1 {
                    assert(prev[i + 1].len() > 0);
                    assert(res[i + 1][0] == prev[i + 1][0]);
                } else {
                    assert(res[i + 1] == prev[i + 1]);
                }
            } else if prev.len() > 0 {
                if i < prev.len() - 1 {
                    assert(res[i] == prev[i]);
                    assert(res[i + 1] == prev[i + 1]);
                }
            }
        }
    }
}


/// What the logic reads of each top-level item of `module`, in order: for an
/// `export` declaration its `ExportDeclInfo`, for any other item `None`. A
/// module is the collection of its top-level items; this names its contents.
pub uninterp spec fn module_export_items(module: swc_ecma_ast::Module) -> Seq<Option<ExportDeclInfo>>;

/// The `export` declarations among `items`, in order.
pub open spec fn export_infos(items: Seq<Option<ExportDeclInfo>>) -> Seq<ExportDeclInfo>
    decreases items.len(),
{
    if items.len() == 0 {
        Seq::empty()
    } else {
        match items.last() {
            Some(d) => export_infos(items.drop_last()).push(d),
            None => export_infos(items.drop_last()),
        }
    }
}

/// The export declarations read from a list of items are exactly its `Some`
/// entries, in order: every export is read, whatever items stand before it.
pub proof fn lemma_export_infos_are_the_exports(items: Seq<Option<ExportDeclInfo>>)
    ensures
        export_infos(items) == items.filter(|o: Option<ExportDeclInfo>| o is Some).map_values(
            |o: Option<ExportDeclInfo>| o->0,
        ),
    decreases items.len(),
{
    reveal(Seq::filter);
    if items.len() > 0 {
        lemma_export_infos_are_the_exports(items.drop_last());
        let before = items.drop_last().filter(|o: Option<ExportDeclInfo>| o is Some);
        if items.last() is Some {
            assert(before.push(items.last()).map_values(|o: Option<ExportDeclInfo>| o->0)
                =~= before.map_values(|o: Option<ExportDeclInfo>| o->0).push(items.last()->0));
        }
    }
}

/// Reading the exports of two runs of items one after the other gives the
/// exports of the first run, then those of the second: an item that is not an
/// export takes away no export that follows it.
pub proof fn lemma_export_infos_concat(a: Seq<Option<ExportDeclInfo>>, b: Seq<Option<ExportDeclInfo>>)
    ensures
        export_infos(a + b) == export_infos(a) + export_infos(b),
{
    lemma_export_infos_are_the_exports(a + b);
    lemma_export_infos_are_the_exports(a);
    lemma_export_infos_are_the_exports(b);
    let p = |o: Option<ExportDeclInfo>| o is Some;
    let f = |o: Option<ExportDeclInfo>| o->0;
    Seq::filter_distributes_over_add(a, b, p);
    assert((a.filter(p) + b.filter(p)).map_values(f) =~= a.filter(p).map_values(f) + b.filter(p).map_values(f));
}

/// Number of top-level items of `module` (`Vec::len` of `Module::body`).
///
/// Claimed of the outside code: it is the number of items that
/// `module_export_items` describes.
#[verifier::external_body]
fn module_item_count(module: &swc_ecma_ast::Module) -> (res: usize)
    ensures
        res == module_export_items(*module).len(),
{
    module.body.len()
}

/// The `i`-th top-level item of `module` (`Vec::get` of `Module::body`),
/// converted when it is an `export` declaration (`ModuleDecl::ExportDecl`):
/// the span's byte positions, the declared function's name
/// (`FnDecl::ident`), or each declarator of a variable declaration (its name
/// when `Pat::as_ident` finds a plain identifier, and whether its initialiser
/// is an `Expr::Arrow`); `None` for any other item.
///
/// Claimed of the outside code: the result is entry `i` of
/// `module_export_items(module)`.
#[verifier::external_body]
fn module_export_info(module: &swc_ecma_ast::Module, i: usize) -> (res: Option<ExportDeclInfo>)
    requires
        i < module_export_items(*module).len(),
    ensures
        res == module_export_items(*module)[i as int],
{
    let Some(ModuleItem::ModuleDecl(ModuleDecl::ExportDecl(e))) = module.body.get(i) else { return None };
    let decl = match &e.decl {
        Decl::Fn(f) => DeclInfo::Fn { name: f.ident.sym.to_string() },
        Decl::Var(v) => DeclInfo::Var { declarators: v.decls.iter().map(|d| VarDeclaratorInfo {
            name: d.name.as_ident().map(|b| b.id.sym.to_string()),
            init_is_arrow: matches!(d.init.as_deref(), Some(Expr::Arrow(_))),
        }).collect() },
        _ => DeclInfo::Other,
    };
    Some(ExportDeclInfo { lo: e.span.lo.0, hi: e.span.hi.0, decl })
}

/// Runs `swc_ecma_transforms_base::resolver` over `module`, with fresh marks.
///
/// Claimed of the outside code: what the logic reads of the items is
/// unchanged (the resolver only sets the syntax contexts of identifiers; it
/// moves no span and changes no name, declaration or initialiser).
#[verifier::external_body]
fn resolve_module(module: swc_ecma_ast::Module) -> (res: swc_ecma_ast::Module)
    ensures
        module_export_items(res) == module_export_items(module),
{
    GLOBALS.set(&Globals::new(), || {
        Program::Module(module).apply(resolver(Mark::new(), Mark::new(), false)).expect_module()
    })
}

/// The `export` declarations among the top-level items of `module`, in order.
fn export_decls_of(module: &swc_ecma_ast::Module) -> (res: Vec<ExportDeclInfo>)
    ensures
        res@ == export_infos(module_export_items(*module)),
        res@ == module_export_items(*module).filter(|o: Option<ExportDeclInfo>| o is Some).map_values(
            |o: Option<ExportDeclInfo>| o->0,
        ),
{
    let ghost items = module_export_items(*module);
    proof {
        lemma_export_infos_are_the_exports(items);
    }
    let count = module_item_count(module);
    let mut decls: Vec<ExportDeclInfo> = Vec::new();
    let mut i: usize = 0;
    assert(items.take(0) =~= Seq::<Option<ExportDeclInfo>>::empty());
    while i < count
        invariant
            items == module_export_items(*module),
            count == items.len(),
            i <= count,
            decls@ == export_infos(items.take(i as int)),
        decreases count - i,
    {
        assert(items.take(i + 1).drop_last() =~= items.take(i as int));
        if let Some(d) = module_export_info(module, i) {
            decls.push(d);
        }
        i = i + 1;
    }
    assert(items.take(i as int) =~= items);
    decls
}

/// Resolves `module` and collects the source code of its exported functions
/// (and of exported variables bound to arrow functions) from `source_code`
/// in chunks; hands back the resolved module, the chunks, and the names of
/// the functions left out as too long. `None` exactly when an export cannot
/// be collected (its span is not a valid slice of `source_code`, or an
/// exported arrow function is not bound to a plain name).
pub fn visit_ast(module: swc_ecma_ast::Module, source_code: &str) -> (res: Option<(swc_ecma_ast::Module, Vec<Vec<String>>, Vec<String>)>)
    ensures
        res is Some <==> all_exports_ok(source_code@, export_infos(module_export_items(module))),
        res matches Some((resolved, codes, ignored)) ==> {
            &&& module_export_items(resolved) == module_export_items(module)
            &&& chunks_view(codes@) == pack_codes(
                exported_codes(source_code@, export_infos(module_export_items(module))),
            )
            &&& names_view(ignored@) == ignored_names(
                source_code@,
                export_infos(module_export_items(module)),
            )
        },
{
    let resolved = resolve_module(module);
    let decls = export_decls_of(&resolved);
    match try_collect_export_codes(source_code, &decls) {
        Some((codes, ignored)) => Some((resolved, codes, ignored)),
        None => None,
    }
}

} // verus!
