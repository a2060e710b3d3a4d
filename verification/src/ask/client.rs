//! Requests: the prompt for a chunk of code, the pace of requests, the code
//! block of a reply, and the merging of the replies per source file.

use vstd::prelude::*;
use vstd::string::*;

use serde_json::Value;

use crate::compile::gen::{regex_language_content, CodeBlock};
use crate::compile::Transformed;
use crate::constants::RES_TEXT_RANGE_REG;

verus! {

/// The prompt text before the source code: the task and one worked example.
pub const PROMPT_HEAD: &'static str = "作为一名前端工程师的 AI 辅助，我的任务是将提取 JS 源代码中的函数类型描述，生成符合typescript的d.ts类型文件格式的类型\n        示例1:\n        Q: 源代码如下:\n            ```javascript\n            \n        export function test (a) { return a + 1 }\n        export const test2 = () => { return \"haha\" }\n        export async function test3 (b: string) { return b }\n        export const test4 = async (c: number, d: number) => { return c + d }\n        \n            ```\n        A: 我返回的结果为：\n            ```typescript\n            \n        export declare function test (a: number): number; \n        export declare const test2: () => string;\n        export declare function test3 (b: string | undefined): string | undefined; \n        export declare const test4: (c: number, d: number) => number;\n        \n            ```\n        源代码如下: ";

/// The prompt text after the source code.
pub const PROMPT_TAIL: &'static str = "\n        ";

/// Where the generated text stands in a reply of the service (a JSON pointer).
pub const REPLY_CONTENT_POINTER: &'static str = "/output/choices/0/message/content";

/// The prompt that asks for the TypeScript declarations of `source_code`.
pub fn gen_prompt(source_code: &str) -> (res: String)
    ensures
        res@ == PROMPT_HEAD@ + source_code@ + PROMPT_TAIL@,
{
    let mut res = PROMPT_HEAD.to_owned();
    res.append(source_code);
    res.append(PROMPT_TAIL);
    res
}


/// The strings of `list` joined with `sep` between neighbours (`[T]::join`).
pub open spec fn join_with(list: Seq<Seq<char>>, sep: Seq<char>) -> Seq<char>
    decreases list.len(),
{
    if list.len() == 0 {
        Seq::empty()
    } else if list.len() == 1 {
        list[0]
    } else {
        join_with(list.drop_last(), sep) + sep + list.last()
    }
}

/// The total number of characters of the strings of `list`.
pub open spec fn total_len(list: Seq<Seq<char>>) -> nat
    decreases list.len(),
{
    if list.len() == 0 {
        0
    } else {
        total_len(list.drop_last()) + list.last().len()
    }
}

/// Joining no string gives the empty string; joining one string gives that
/// string unchanged, with no separator.
pub proof fn lemma_join_with_single(x: Seq<char>, sep: Seq<char>)
    ensures
        join_with(Seq::empty(), sep) == Seq::<char>::empty(),
        join_with(seq![x], sep) == x,
{
}

/// Joining a non-empty list and one more string: the join of the list, the
/// separator, then the new string; no piece is ever left out.
pub proof fn lemma_join_with_push(list: Seq<Seq<char>>, x: Seq<char>, sep: Seq<char>)
    requires
        list.len() > 0,
    ensures
        join_with(list.push(x), sep) == join_with(list, sep) + sep + x,
{
    assert(list.push(x).drop_last() =~= list);
}

/// Joining two non-empty lists one after the other: the join of the first,
/// the separator, then the join of the second.
pub proof fn lemma_join_with_concat(a: Seq<Seq<char>>, b: Seq<Seq<char>>, sep: Seq<char>)
    requires
        a.len() > 0,
        b.len() > 0,
    ensures
        join_with(a + b, sep) == join_with(a, sep) + sep + join_with(b, sep),
    decreases b.len(),
{
    if b.len() == 1 {
        assert(b =~= seq![b[0]]);
        assert(a + b =~= a.push(b[0]));
        lemma_join_with_push(a, b[0], sep);
    } else {
        let init = b.drop_last();
        lemma_join_with_concat(a, init, sep);
        assert((a + b).drop_last() =~= a + init);
        assert(join_with(a, sep) + sep + join_with(init, sep) + sep + b.last() =~= join_with(a, sep)
            + sep + (join_with(init, sep) + sep + b.last()));
    }
}

/// The length of a join: every character of every piece, and one separator
/// between each two neighbours.
pub proof fn lemma_join_with_len(list: Seq<Seq<char>>, sep: Seq<char>)
    requires
        list.len() > 0,
    ensures
        join_with(list, sep).len() == total_len(list) + (list.len() - 1) * sep.len(),
    decreases list.len(),
{
    if list.len() == 1 {
        assert(list.drop_last() =~= Seq::<Seq<char>>::empty());
        assert(total_len(list.drop_last()) == 0);
    } else {
        lemma_join_with_len(list.drop_last(), sep);
        let n: int = list.len() - 1;
        let k: int = sep.len() as int;
        assert((n - 1) * k + k == n * k) by (nonlinear_arith);
        assert(join_with(list, sep).len() == join_with(list.drop_last(), sep).len() + k + list.last().len());
    }
}

/// The pieces of code of one chunk, one after the other, separated by line
/// breaks: the source code that one request asks about.
pub fn join_codes(codes: &Vec<String>) -> (res: String)
    ensures
        res@ == join_with(codes@.map_values(|s: String| s@), seq!['\n']),
        codes@.len() > 0 ==> res@.len() == total_len(codes@.map_values(|s: String| s@)) + codes@.len() - 1,
{
    let ghost list = codes@.map_values(|s: String| s@);
    proof {
        if list.len() > 0 {
            lemma_join_with_len(list, seq!['\n']);
            let n: int = list.len() - 1;
            assert(seq!['\n'].len() == 1);
            assert(n * 1 == n);
        }
    }
    let mut res = String::new();
    let mut i: usize = 0;
    while i < codes.len()
        invariant
            list == codes@.map_values(|s: String| s@),
            i <= codes@.len(),
            res@ == join_with(list.take(i as int), seq!['\n']),
        decreases codes@.len() - i,
    {
        assert(list.take(i + 1).drop_last() =~= list.take(i as int));
        if i > 0 {
            crate::text::push_char(&mut res, '\n');
        } else {
            assert(res@ =~= Seq::<char>::empty());
        }
        res.append(codes[i].as_str());
        i = i + 1;
    }
    assert(list.take(i as int) =~= list);
    res
}

/// The string at the JSON pointer `pointer` in the JSON text `body`, as
/// `serde_json` reads it.
pub uninterp spec fn json_text_at(body: Seq<char>, pointer: Seq<char>) -> Option<Seq<char>>;

/// Parses `body` with `serde_json::from_str` into a `serde_json::Value`,
/// looks up `pointer` with `Value::pointer` and reads the string there with
/// `Value::as_str`.
///
/// Claimed of the outside code: the result is a function of `body` and
/// `pointer`; `None` when `body` is not JSON, nothing stands at `pointer`, or
/// what stands there is not a string.
#[verifier::external_body]
fn json_string_at(body: &str, pointer: &str) -> (res: Option<String>)
    ensures
        match res {
            Some(text) => json_text_at(body@, pointer@) == Some(text@),
            None => json_text_at(body@, pointer@) is None,
        },
{
    let value: Value = serde_json::from_str(body).ok()?;
    value.pointer(pointer)?.as_str().map(|text| text.to_string())
}

/// Why no code block could be made of a reply.
#[derive(Debug, Clone, Copy, PartialEq, Eq)]
pub enum ReplyError {
    /// The reply is not JSON with a string at `REPLY_CONTENT_POINTER`.
    MissingContent,
    /// The generated text holds no fenced code block.
    NoCodeBlock,
}

/// The code block named `file_name` made of the generated text of a reply,
/// if the reply had one.
pub fn code_block_from_content(file_name: String, content: Option<String>) -> (res: Result<
    CodeBlock,
    ReplyError,
>)
    ensures
        match content {
            None => res == Err::<CodeBlock, ReplyError>(ReplyError::MissingContent),
            Some(text) => match regex_language_content(RES_TEXT_RANGE_REG@, text@) {
                Some((language, code)) => res matches Ok(b) && b.file_name@ == file_name@
                    && b.language@ == language && b.content@ == code,
                None => res == Err::<CodeBlock, ReplyError>(ReplyError::NoCodeBlock),
            },
        },
{
    match content {
        None => Err(ReplyError::MissingContent),
        Some(text) => match CodeBlock::find_code_block(file_name, text.as_str()) {
            Some(block) => Ok(block),
            None => Err(ReplyError::NoCodeBlock),
        },
    }
}

/// The code block named `file_name` in the reply `body` of the service: the
/// first fenced block of the text at `REPLY_CONTENT_POINTER`.
pub fn code_block_from_reply(file_name: String, body: &str) -> (res: Result<CodeBlock, ReplyError>)
    ensures
        match json_text_at(body@, REPLY_CONTENT_POINTER@) {
            None => res == Err::<CodeBlock, ReplyError>(ReplyError::MissingContent),
            Some(text) => match regex_language_content(RES_TEXT_RANGE_REG@, text) {
                Some((language, code)) => res matches Ok(b) && b.file_name@ == file_name@
                    && b.language@ == language && b.content@ == code,
                None => res == Err::<CodeBlock, ReplyError>(ReplyError::NoCodeBlock),
            },
        },
{
    let content = json_string_at(body, REPLY_CONTENT_POINTER);
    code_block_from_content(file_name, content)
}


/// Keeps requests to a rate: after `max_requests_per_second` requests the
/// next one waits for the service to catch up.
pub struct RequestPacer {
    pub max_requests_per_second: u32,
    /// Requests counted in the current round.
    pub num_requests: u32,
    /// Requests counted since the pacer was made.
    pub requests: Ghost<nat>,
}

impl RequestPacer {
    /// The pacer is consistent: at least one request per round, and the
    /// count of the round is that of a fresh pacer after all the requests
    /// counted so far.
    pub open spec fn wf(&self) -> bool {
        &&& 0 < self.max_requests_per_second
        &&& self.num_requests == paced_count(self.max_requests_per_second as nat, self.requests@)
    }

    /// A pacer that has counted no request yet.
    pub fn new(max_requests_per_second: u32) -> (res: Self)
        requires
            max_requests_per_second > 0,
        ensures
            res.wf(),
            res.max_requests_per_second == max_requests_per_second,
            res.num_requests == 0,
            res.requests@ == 0,
    {
        RequestPacer { max_requests_per_second, num_requests: 0, requests: Ghost(0) }
    }

    /// Counts one more request; `true` when it must wait first, because the
    /// requests of the current round are used up (the count then starts a
    /// new round). The request numbered `k` from 0 since the pacer was made
    /// waits exactly when `k` is a positive multiple of the round size.
    pub fn before_request(&mut self) -> (wait: bool)
        requires
            old(self).wf(),
        ensures
            final(self).wf(),
            final(self).max_requests_per_second == old(self).max_requests_per_second,
            final(self).requests@ == old(self).requests@ + 1,
            wait == (old(self).num_requests >= old(self).max_requests_per_second),
            wait == (old(self).requests@ > 0 && (old(self).requests@ as int) % (
            old(self).max_requests_per_second as int) == 0),
            final(self).num_requests == if wait { 1 } else { old(self).num_requests + 1 },
    {
        proof {
            lemma_pacer_rounds(self.max_requests_per_second as nat, self.requests@);
            if self.requests@ > 0 {
                lemma_pacer_count_bound(self.max_requests_per_second as nat, self.requests@);
            }
        }
        let wait = self.num_requests >= self.max_requests_per_second;
        if wait {
            self.num_requests = 0;
        }
        self.num_requests = self.num_requests + 1;
        self.requests = Ghost(self.requests@ + 1);
        wait
    }
}

/// The count of a fresh pacer with round size `max` after `k` requests.
pub open spec fn paced_count(max: nat, k: nat) -> nat
    decreases k,
{
    if k == 0 {
        0
    } else if paced_count(max, (k - 1) as nat) >= max {
        1
    } else {
        paced_count(max, (k - 1) as nat) + 1
    }
}

proof fn lemma_mod_succ(a: int, m: int)
    requires
        a >= 0,
        m > 0,
    ensures
        (a + 1) % m == if a % m + 1 == m { 0 } else { a % m + 1 },
        (a + 1) / m == if a % m + 1 == m { a / m + 1 } else { a / m },
{
    let q = a / m;
    let r = a % m;
    vstd::arithmetic::div_mod::lemma_fundamental_div_mod(a, m);
    vstd::arithmetic::div_mod::lemma_mod_pos_bound(a, m);
    if r + 1 == m {
        assert(a + 1 == (q + 1) * m + 0) by (nonlinear_arith)
            requires
                a == m * q + r,
                r + 1 == m,
        ;
        vstd::arithmetic::div_mod::lemma_fundamental_div_mod_converse(a + 1, m, q + 1, 0);
    } else {
        assert(a + 1 == q * m + (r + 1)) by (nonlinear_arith)
            requires
                a == m * q + r,
        ;
        vstd::arithmetic::div_mod::lemma_fundamental_div_mod_converse(a + 1, m, q, r + 1);
    }
}

/// The count of a fresh pacer stays within the round size.
proof fn lemma_pacer_count_bound(max: nat, k: nat)
    requires
        max > 0,
        k > 0,
    ensures
        1 <= paced_count(max, k) <= max,
{
    lemma_pacer_rounds(max, k);
    vstd::arithmetic::div_mod::lemma_mod_pos_bound(k - 1, max as int);
}

/// How many of the requests numbered `0..=k` (from a fresh pacer with round
/// size `max`) wait first.
pub open spec fn pauses_through(max: nat, k: nat) -> nat
    decreases k,
{
    let waits: nat = if k > 0 && (k as int) % (max as int) == 0 { 1 } else { 0 };
    if k == 0 {
        waits
    } else {
        pauses_through(max, (k - 1) as nat) + waits
    }
}

/// Request `k` (from 0) of a fresh pacer with round size `max` starts after
/// exactly `k / max` pauses, so at most `max` requests start between two
/// pauses.
pub proof fn lemma_pauses_through(max: nat, k: nat)
    requires
        max > 0,
    ensures
        pauses_through(max, k) == (k as int) / (max as int),
    decreases k,
{
    let m = max as int;
    if k == 0 {
        assert(0int / m == 0) by {
            vstd::arithmetic::div_mod::lemma_fundamental_div_mod_converse(0, m, 0, 0);
        }
    } else {
        lemma_pauses_through(max, (k - 1) as nat);
        lemma_mod_succ(k - 1, m);
    }
}

/// A fresh pacer lets requests through in rounds of `max`: after `k`
/// requests its count is `(k - 1) % max + 1`, so request `k` (counting from
/// 0) waits exactly when `k` is a positive multiple of `max`.
pub proof fn lemma_pacer_rounds(max: nat, k: nat)
    requires
        max > 0,
    ensures
        k > 0 ==> paced_count(max, k) == (k - 1) % (max as int) + 1,
        (paced_count(max, k) >= max) == (k > 0 && (k as int) % (max as int) == 0),
    decreases k,
{
    let m = max as int;
    if k > 0 {
        vstd::arithmetic::div_mod::lemma_mod_pos_bound(k - 1, m);
        lemma_mod_succ(k - 1, m);
        if k > 1 {
            lemma_pacer_rounds(max, (k - 1) as nat);
            vstd::arithmetic::div_mod::lemma_mod_pos_bound(k - 2, m);
            lemma_mod_succ(k - 2, m);
            let prev = paced_count(max, (k - 1) as nat);
            assert(prev == (k - 2) % m + 1);
            assert(paced_count(max, k) == if prev >= max { 1 } else { prev + 1 });
        } else {
            assert(paced_count(max, 0) == 0);
            assert(paced_count(max, 1) == 1);
            vstd::arithmetic::div_mod::lemma_small_mod(0, max);
            if max > 1 {
                vstd::arithmetic::div_mod::lemma_small_mod(1, max);
            } else {
                vstd::arithmetic::div_mod::lemma_mod_self_0(m);
            }
        }
    }
}


/// The file names of `blocks`, each once, in the order of first appearance.
pub open spec fn file_names(blocks: Seq<CodeBlock>) -> Seq<Seq<char>>
    decreases blocks.len(),
{
    if blocks.len() == 0 {
        Seq::empty()
    } else {
        let prev = file_names(blocks.drop_last());
        if prev.contains(blocks.last().file_name@) {
            prev
        } else {
            prev.push(blocks.last().file_name@)
        }
    }
}

/// The contents of the blocks of `blocks` named `name`, in order, each after
/// a line break.
pub open spec fn merged_content(blocks: Seq<CodeBlock>, name: Seq<char>) -> Seq<char>
    decreases blocks.len(),
{
    if blocks.len() == 0 {
        Seq::empty()
    } else if blocks.last().file_name@ == name {
        merged_content(blocks.drop_last(), name) + seq!['\n'] + blocks.last().content@
    } else {
        merged_content(blocks.drop_last(), name)
    }
}

/// The language of the first block of `blocks` named `name`.
pub open spec fn first_language(blocks: Seq<CodeBlock>, name: Seq<char>) -> Seq<char>
    decreases blocks.len(),
{
    if blocks.len() == 0 {
        Seq::empty()
    } else if file_names(blocks.drop_last()).contains(name) {
        first_language(blocks.drop_last(), name)
    } else if blocks.last().file_name@ == name {
        blocks.last().language@
    } else {
        Seq::empty()
    }
}

/// The merged blocks are those of `blocks` joined per file name.
pub open spec fn merged_as(res: Seq<CodeBlock>, blocks: Seq<CodeBlock>) -> bool {
    &&& res.len() == file_names(blocks).len()
    &&& forall|k: int|
        0 <= k < res.len() ==> {
            &&& (#[trigger] res[k]).file_name@ == file_names(blocks)[k]
            &&& res[k].content@ == merged_content(blocks, file_names(blocks)[k])
            &&& res[k].language@ == first_language(blocks, file_names(blocks)[k])
        }
}

/// Each file name is listed once.
pub proof fn lemma_file_names_distinct(blocks: Seq<CodeBlock>)
    ensures
        file_names(blocks).no_duplicates(),
    decreases blocks.len(),
{
    if blocks.len() > 0 {
        lemma_file_names_distinct(blocks.drop_last());
    }
}

/// Every block's file name is listed.
pub proof fn lemma_file_names_cover(blocks: Seq<CodeBlock>)
    ensures
        forall|i: int| 0 <= i < blocks.len() ==> file_names(blocks).contains(#[trigger] blocks[i].file_name@),
        forall|k: int| 0 <= k < file_names(blocks).len()
            ==> exists|i: int| 0 <= i < blocks.len() && blocks[i].file_name@ == #[trigger] file_names(blocks)[k],
    decreases blocks.len(),
{
    if blocks.len() > 0 {
        let prev = blocks.drop_last();
        lemma_file_names_cover(prev);
        let names = file_names(blocks);
        assert forall|i: int| 0 <= i < blocks.len() implies names.contains(#[trigger] blocks[i].file_name@) by {
            if i < blocks.len() - 1 {
                assert(prev[i] == blocks[i]);
                let k = choose|k: int| 0 <= k < file_names(prev).len() && file_names(prev)[k] == blocks[i].file_name@;
                assert(names[k] == blocks[i].file_name@);
            } else {
                if !file_names(prev).contains(blocks.last().file_name@) {
                    assert(names[names.len() - 1] == blocks.last().file_name@);
                }
            }
        }
        assert forall|k: int| 0 <= k < names.len()
            implies exists|i: int| 0 <= i < blocks.len() && blocks[i].file_name@ == #[trigger] names[k] by {
            if k < file_names(prev).len() {
                let i = choose|i: int| 0 <= i < prev.len() && prev[i].file_name@ == file_names(prev)[k];
                assert(blocks[i] == prev[i]);
            } else {
                assert(blocks[blocks.len() - 1].file_name@ == names[k]);
            }
        }
    }
}

/// The position of the block named `name` in `blocks`, if any.
fn find_file_name(blocks: &Vec<CodeBlock>, name: &String) -> (res: Option<usize>)
    ensures
        match res {
            Some(j) => j < blocks@.len() && blocks@[j as int].file_name@ == name@,
            None => forall|k: int| 0 <= k < blocks@.len() ==> (#[trigger] blocks@[k]).file_name@ != name@,
        },
{
    let mut j: usize = 0;
    while j < blocks.len()
        invariant
            j <= blocks@.len(),
            forall|k: int| 0 <= k < j ==> (#[trigger] blocks@[k]).file_name@ != name@,
        decreases blocks@.len() - j,
    {
        if blocks[j].file_name == *name {
            return Some(j);
        }
        j = j + 1;
    }
    None
}

proof fn lemma_merge_step(blocks: Seq<CodeBlock>, i: int, name: Seq<char>)
    requires
        0 <= i < blocks.len(),
    ensures
        file_names(blocks.take(i + 1)) == if file_names(blocks.take(i)).contains(blocks[i].file_name@) {
            file_names(blocks.take(i))
        } else {
            file_names(blocks.take(i)).push(blocks[i].file_name@)
        },
        merged_content(blocks.take(i + 1), name) == if blocks[i].file_name@ == name {
            merged_content(blocks.take(i), name) + seq!['\n'] + blocks[i].content@
        } else {
            merged_content(blocks.take(i), name)
        },
        file_names(blocks.take(i)).contains(name) ==> first_language(blocks.take(i + 1), name)
            == first_language(blocks.take(i), name),
        !file_names(blocks.take(i)).contains(name) && blocks[i].file_name@ == name
            ==> first_language(blocks.take(i + 1), name) == blocks[i].language@,
{
    assert(blocks.take(i + 1).drop_last() =~= blocks.take(i));
}

/// The replies joined per source file: one block per file name, in the
/// order in which the names first come, with the language of the first
/// block of that name and the contents of all its blocks in order, each
/// after a line break. Names are distinct, and every block's name has its
/// merged block.
pub fn merge_code_blocks(blocks: &Vec<CodeBlock>) -> (res: Vec<CodeBlock>)
    ensures
        merged_as(res@, blocks@),
        forall|a: int, b: int| 0 <= a < b < res@.len() ==> res@[a].file_name@ != res@[b].file_name@,
        forall|i: int| 0 <= i < blocks@.len()
            ==> exists|k: int| 0 <= k < res@.len() && res@[k].file_name@ == #[trigger] blocks@[i].file_name@,
{
    let mut res: Vec<CodeBlock> = Vec::new();
    let mut i: usize = 0;
    assert(blocks@.take(0) =~= Seq::<CodeBlock>::empty());
    while i < blocks.len()
        invariant
            i <= blocks@.len(),
            merged_as(res@, blocks@.take(i as int)),
        decreases blocks@.len() - i,
    {
        let ghost prev = blocks@.take(i as int);
        let ghost names = file_names(prev);
        let ghost old_res = res@;
        let b = &blocks[i];
        proof {
            lemma_file_names_distinct(prev);
        }
        match find_file_name(&res, &b.file_name) {
            Some(j) => {
                let cur = &res[j];
                let mut content = cur.content.clone();
                crate::text::push_char(&mut content, '\n');
                content.append(b.content.as_str());
                let merged = CodeBlock {
                    file_name: cur.file_name.clone(),
                    language: cur.language.clone(),
                    content,
                };
                res.set(j, merged);
                proof {
                    assert(names.contains(b.file_name@)) by {
                        assert(names[j as int] == b.file_name@);
                    }
                    lemma_merge_step(blocks@, i as int, b.file_name@);
                    assert(file_names(blocks@.take(i + 1)) == names);
                    assert forall|k: int| 0 <= k < res@.len() implies {
                        &&& (#[trigger] res@[k]).file_name@ == file_names(blocks@.take(i + 1))[k]
                        &&& res@[k].content@ == merged_content(blocks@.take(i + 1), file_names(blocks@.take(i + 1))[k])
                        &&& res@[k].language@ == first_language(blocks@.take(i + 1), file_names(blocks@.take(i + 1))[k])
                    } by {
                        lemma_merge_step(blocks@, i as int, names[k]);
                        if k != j {
                            assert(names[k] != names[j as int]);
                            assert(res@[k] == old_res[k]);
                        }
                    }
                    assert(merged_as(res@, blocks@.take(i + 1)));
                }
            },
            None => {
                let mut content = String::new();
                crate::text::push_char(&mut content, '\n');
                content.append(b.content.as_str());
                let fresh = CodeBlock {
                    file_name: b.file_name.clone(),
                    language: b.language.clone(),
                    content,
                };
                res.push(fresh);
                proof {
                    assert(!names.contains(b.file_name@)) by {
                        if names.contains(b.file_name@) {
                            let k = choose|k: int| 0 <= k < names.len() && names[k] == b.file_name@;
                            assert(old_res[k].file_name@ == b.file_name@);
                        }
                    }
                    let next = file_names(blocks@.take(i + 1));
                    lemma_merge_step(blocks@, i as int, b.file_name@);
                    assert(merged_content(prev, b.file_name@) == Seq::<char>::empty()) by {
                        lemma_merged_content_absent(prev, b.file_name@);
                    }
                    assert forall|k: int| 0 <= k < res@.len() implies {
                        &&& (#[trigger] res@[k]).file_name@ == next[k]
                        &&& res@[k].content@ == merged_content(blocks@.take(i + 1), next[k])
                        &&& res@[k].language@ == first_language(blocks@.take(i + 1), next[k])
                    } by {
                        lemma_merge_step(blocks@, i as int, next[k]);
                        if k < old_res.len() {
                            assert(res@[k] == old_res[k]);
                            assert(next[k] == names[k]);
                            assert(names.contains(names[k]));
                        } else {
                            assert(res@[k].content@ =~= Seq::<char>::empty() + seq!['\n'] + b.content@);
                        }
                    }
                    assert(merged_as(res@, blocks@.take(i + 1)));
                }
            },
        }
        i = i + 1;
    }
    assert(blocks@.take(i as int) =~= blocks@);
    proof {
        lemma_file_names_distinct(blocks@);
        lemma_file_names_cover(blocks@);
        let names = file_names(blocks@);
        assert forall|i: int| 0 <= i < blocks@.len() implies exists|k: int|
            0 <= k < res@.len() && res@[k].file_name@ == #[trigger] blocks@[i].file_name@ by {
            let k = choose|k: int| 0 <= k < names.len() && names[k] == blocks@[i].file_name@;
            assert(res@[k].file_name@ == names[k]);
        }
    }
    res
}

/// A name that no block carries has no merged content.
proof fn lemma_merged_content_absent(blocks: Seq<CodeBlock>, name: Seq<char>)
    requires
        !file_names(blocks).contains(name),
    ensures
        merged_content(blocks, name) == Seq::<char>::empty(),
    decreases blocks.len(),
{
    if blocks.len() > 0 {
        let prev = file_names(blocks.drop_last());
        if prev.contains(name) {
            let k = choose|k: int| 0 <= k < prev.len() && prev[k] == name;
            if !prev.contains(blocks.last().file_name@) {
                assert(file_names(blocks)[k] == name);
            }
        }
        if !prev.contains(blocks.last().file_name@) && blocks.last().file_name@ == name {
            assert(file_names(blocks)[prev.len() as int] == name);
        }
        lemma_merged_content_absent(blocks.drop_last(), name);
    }
}


/// One request to make: the file the answer belongs to, and the source code
/// to ask about.
#[derive(Debug, PartialEq, Eq)]
pub struct AskJob {
    pub file_name: String,
    pub source_code: String,
}

/// The source code of one chunk: its pieces joined by line breaks.
pub open spec fn chunk_source(chunk: Vec<String>) -> Seq<char> {
    join_with(chunk@.map_values(|s: String| s@), seq!['\n'])
}

/// The requests for `files`, file by file and chunk by chunk in order: each
/// under the file's relative name, asking about the chunk's source code.
pub open spec fn jobs_of(files: Seq<Transformed>) -> Seq<(Seq<char>, Seq<char>)>
    decreases files.len(),
{
    if files.len() == 0 {
        Seq::empty()
    } else {
        let f = files.last();
        jobs_of(files.drop_last()) + f.filter_code@.map_values(
            |chunk: Vec<String>| (f.file.relative_name@, chunk_source(chunk)),
        )
    }
}

/// The number of chunks of all of `files`.
pub open spec fn chunk_count(files: Seq<Transformed>) -> nat
    decreases files.len(),
{
    if files.len() == 0 {
        0
    } else {
        chunk_count(files.drop_last()) + files.last().filter_code@.len()
    }
}

/// The requests of two runs of files one after the other: those of the first
/// run, then those of the second; no file is left without its requests.
pub proof fn lemma_jobs_of_concat(a: Seq<Transformed>, b: Seq<Transformed>)
    ensures
        jobs_of(a + b) == jobs_of(a) + jobs_of(b),
    decreases b.len(),
{
    if b.len() == 0 {
        assert(a + b =~= a);
        assert(jobs_of(a) + jobs_of(b) =~= jobs_of(a));
    } else {
        let init = b.drop_last();
        lemma_jobs_of_concat(a, init);
        assert((a + b).drop_last() =~= a + init);
        assert((a + b).last() == b.last());
        let f = b.last();
        let mine = f.filter_code@.map_values(
            |chunk: Vec<String>| (f.file.relative_name@, chunk_source(chunk)),
        );
        assert(jobs_of(a) + jobs_of(init) + mine =~= jobs_of(a) + (jobs_of(init) + mine));
    }
}

/// The requests of a single file: one per chunk, in order, each under the
/// file's relative name and asking about the chunk's pieces joined by line
/// breaks.
pub proof fn lemma_jobs_of_single(f: Transformed)
    ensures
        jobs_of(seq![f]) == f.filter_code@.map_values(
            |chunk: Vec<String>| (f.file.relative_name@, chunk_source(chunk)),
        ),
{
    assert(seq![f].drop_last() =~= Seq::<Transformed>::empty());
    assert(seq![f].last() == f);
    assert(jobs_of(seq![f].drop_last()) == Seq::<(Seq<char>, Seq<char>)>::empty());
    assert(Seq::<(Seq<char>, Seq<char>)>::empty() + f.filter_code@.map_values(
        |chunk: Vec<String>| (f.file.relative_name@, chunk_source(chunk)),
    ) =~= f.filter_code@.map_values(|chunk: Vec<String>| (f.file.relative_name@, chunk_source(chunk))));
}

/// One request per chunk: the number of requests is the number of chunks of
/// all the files.
pub proof fn lemma_jobs_of_len(files: Seq<Transformed>)
    ensures
        jobs_of(files).len() == chunk_count(files),
    decreases files.len(),
{
    if files.len() > 0 {
        lemma_jobs_of_len(files.drop_last());
    }
}

/// The requests to make for the transformed files, in order.
pub fn ask_jobs(files: &Vec<Transformed>) -> (res: Vec<AskJob>)
    ensures
        res@.map_values(|j: AskJob| (j.file_name@, j.source_code@)) == jobs_of(files@),
        res@.len() == chunk_count(files@),
{
    proof {
        lemma_jobs_of_len(files@);
    }
    let mut res: Vec<AskJob> = Vec::new();
    let mut i: usize = 0;
    assert(files@.take(0) =~= Seq::<Transformed>::empty());
    while i < files.len()
        invariant
            i <= files@.len(),
            res@.map_values(|j: AskJob| (j.file_name@, j.source_code@)) == jobs_of(files@.take(i as int)),
        decreases files@.len() - i,
    {
        let f = &files[i];
        let ghost before = res@.map_values(|j: AskJob| (j.file_name@, j.source_code@));
        let ghost chunk_jobs = f.filter_code@.map_values(
            |chunk: Vec<String>| (f.file.relative_name@, chunk_source(chunk)),
        );
        let mut c: usize = 0;
        while c < f.filter_code.len()
            invariant
                c <= f.filter_code@.len(),
                chunk_jobs == f.filter_code@.map_values(
                    |chunk: Vec<String>| (f.file.relative_name@, chunk_source(chunk)),
                ),
                res@.map_values(|j: AskJob| (j.file_name@, j.source_code@)) == before
                    + chunk_jobs.take(c as int),
            decreases f.filter_code@.len() - c,
        {
            let job = AskJob {
                file_name: f.file.relative_name.clone(),
                source_code: join_codes(&f.filter_code[c]),
            };
            assert((job.file_name@, job.source_code@) == chunk_jobs[c as int]);
            let ghost old_res = res@;
            res.push(job);
            assert(res@.map_values(|j: AskJob| (j.file_name@, j.source_code@)) =~= old_res.map_values(
                |j: AskJob| (j.file_name@, j.source_code@)).push(chunk_jobs[c as int]));
            assert(chunk_jobs.take(c + 1) =~= chunk_jobs.take(c as int).push(chunk_jobs[c as int]));
            assert(res@.map_values(|j: AskJob| (j.file_name@, j.source_code@)) =~= before
                + chunk_jobs.take(c + 1));
            c = c + 1;
        }
        assert(chunk_jobs.take(c as int) =~= chunk_jobs);
        assert(files@.take(i + 1).drop_last() =~= files@.take(i as int));
        i = i + 1;
    }
    assert(files@.take(i as int) =~= files@);
    res
}

} // verus!
