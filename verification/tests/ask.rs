use auto_gen_d_ts::ask::client::{
    ask_jobs, code_block_from_content, code_block_from_reply, gen_prompt, join_codes,
    merge_code_blocks, AskJob, ReplyError, RequestPacer, PROMPT_HEAD, PROMPT_TAIL,
};
use auto_gen_d_ts::compile::gen::CodeBlock;
use auto_gen_d_ts::compile::Transformed;
use auto_gen_d_ts::file_io::read::File;

fn block(file_name: &str, language: &str, content: &str) -> CodeBlock {
    CodeBlock {
        file_name: file_name.to_string(),
        language: language.to_string(),
        content: content.to_string(),
    }
}

#[test]
fn prompt_wraps_the_source_code() {
    let prompt = gen_prompt("export function f() {}");
    assert_eq!(prompt, format!("{}export function f() {{}}{}", PROMPT_HEAD, PROMPT_TAIL));
    assert!(prompt.starts_with("作为一名前端工程师的 AI 辅助"));
    assert!(prompt.contains("export declare const test4: (c: number, d: number) => number;"));
    assert!(prompt.ends_with("源代码如下: export function f() {}\n        "));
}

#[test]
fn join_codes_separates_with_line_breaks() {
    assert_eq!(join_codes(&vec![]), "");
    assert_eq!(join_codes(&vec!["a".to_string()]), "a");
    assert_eq!(join_codes(&vec!["a".to_string(), "b".to_string(), "c".to_string()]), "a\nb\nc");
}

#[test]
fn reply_with_code_block() {
    let body = r#"{"output":{"choices":[{"message":{"role":"assistant","content":"sure\n```typescript\nexport declare function f(): void;\n```"}}]}}"#;
    let block = code_block_from_reply("lib/f".to_string(), body).unwrap();
    assert_eq!(block.file_name, "lib/f");
    assert_eq!(block.language, "typescript");
    assert_eq!(block.content, "export declare function f(): void;\n");
}

#[test]
fn reply_without_content_or_block() {
    assert_eq!(code_block_from_reply("f".to_string(), "not json"), Err(ReplyError::MissingContent));
    assert_eq!(
        code_block_from_reply("f".to_string(), r#"{"output":{"choices":[]}}"#),
        Err(ReplyError::MissingContent)
    );
    assert_eq!(
        code_block_from_reply("f".to_string(), r#"{"output":{"choices":[{"message":{"content":7}}]}}"#),
        Err(ReplyError::MissingContent)
    );
    assert_eq!(
        code_block_from_reply("f".to_string(), r#"{"output":{"choices":[{"message":{"content":"no fence"}}]}}"#),
        Err(ReplyError::NoCodeBlock)
    );
}

#[test]
fn content_to_code_block() {
    assert_eq!(code_block_from_content("f".to_string(), None), Err(ReplyError::MissingContent));
    assert_eq!(
        code_block_from_content("f".to_string(), Some("```ts\nx\n```".to_string())),
        Ok(block("f", "ts", "x\n"))
    );
}

#[test]
fn pacer_waits_every_round() {
    let mut pacer = RequestPacer::new(3);
    let waits: Vec<bool> = (0..8).map(|_| pacer.before_request()).collect();
    assert_eq!(waits, vec![false, false, false, true, false, false, true, false]);
    assert_eq!(pacer.num_requests, 2);
}

#[test]
fn merge_joins_blocks_per_file() {
    let blocks = vec![
        block("a", "typescript", "A1"),
        block("b", "ts", "B1"),
        block("a", "javascript", "A2"),
    ];
    let merged = merge_code_blocks(&blocks);
    assert_eq!(merged, vec![block("a", "typescript", "\nA1\nA2"), block("b", "ts", "\nB1")]);
    assert!(merge_code_blocks(&vec![]).is_empty());
}

#[test]
fn jobs_follow_files_and_chunks() {
    let file = |rel: &str| File { name: "n".to_string(), content: String::new(), relative_name: rel.to_string() };
    let files = vec![
        Transformed {
            file: file("x/one"),
            filter_code: vec![vec!["f1".to_string(), "f2".to_string()], vec!["f3".to_string()]],
        },
        Transformed { file: file("two"), filter_code: vec![] },
        Transformed { file: file("three"), filter_code: vec![vec!["g".to_string()]] },
    ];
    let jobs = ask_jobs(&files);
    let job = |f: &str, s: &str| AskJob { file_name: f.to_string(), source_code: s.to_string() };
    assert_eq!(jobs, vec![job("x/one", "f1\nf2"), job("x/one", "f3"), job("three", "g")]);
}
