use auto_gen_d_ts::compile::gen::{code_block_from_captures, CodeBlock};
use auto_gen_d_ts::compile::parse::parse_js_2_ast;
use auto_gen_d_ts::compile::transform::{
    collect_export_codes, try_collect_export_codes, visit_ast, DeclInfo,
    ExportDeclInfo, ExportFnCollector, VarDeclaratorInfo,
};
use auto_gen_d_ts::compile::transform_file;
use auto_gen_d_ts::constants::FUNCTION_CHUNK_MAX_SIZE;
use auto_gen_d_ts::file_io::read::File;

#[test]
fn test_get_js_ast() {
    let file_name = "function.js";
    let code = "export function add(a, b)
                { return a + b; }
            export const test = 
            (a) => { return a }";
    let module = parse_js_2_ast(file_name, code);
    assert!(module.is_some());
    let (_, src) = module.unwrap();
    assert_eq!(src, code);
}

#[test]
fn test_get_async_js_ast() {
    let file_name = "function.js";
    let code = "
        export async function add(a, b) { return a + b; }
        export const test = async (a) => { return a }";
    let module = parse_js_2_ast(file_name, code);
    assert!(module.is_some());
}

#[test]
fn test_transform() {
    let file_name = "function.js";
    let code = "export function add(a, b)
            { return a + b; }
        export const test = 
        (a) => { return a }";
    let (module, src) = parse_js_2_ast(file_name, code).unwrap();
    let (_, codes, ignored) = visit_ast(module, &src).unwrap();
    assert!(ignored.is_empty());
    assert_eq!(
        codes,
        vec![vec![
            "export function add(a, b)\n            { return a + b; }".to_string(),
            "export const test = \n        (a) => { return a }".to_string(),
        ]]
    );
}

#[test]
fn test_transform_async_js_ast() {
    let file_name = "function.js";
    let code = "
        export async function add(a, b) { return a + b; }
        export const test = async (a) => { return a }";
    let (module, src) = parse_js_2_ast(file_name, code).unwrap();
    let (_, codes, ignored) = visit_ast(module, &src).unwrap();
    assert!(ignored.is_empty());
    assert_eq!(
        codes,
        vec![vec![
            "export async function add(a, b) { return a + b; }".to_string(),
            "export const test = async (a) => { return a }".to_string(),
        ]]
    );
}

#[test]
fn parse_fails_on_broken_source() {
    assert!(parse_js_2_ast("broken.js", "export function (").is_none());
}

#[test]
fn parse_drops_byte_order_mark() {
    let (_, src) = parse_js_2_ast("bom.js", "\u{feff}export const a = 1;").unwrap();
    assert_eq!(src, "export const a = 1;");
}

#[test]
fn only_functions_and_arrow_variables_are_collected() {
    let code = "export class A {}\nexport const n = 1;\nexport let f = function () {};\nexport const g = () => 2, h = 3;\nexport function k() {}\nfunction local() {}";
    let (module, src) = parse_js_2_ast("m.js", code).unwrap();
    let (_, codes, ignored) = visit_ast(module, &src).unwrap();
    assert!(ignored.is_empty());
    assert_eq!(
        codes,
        vec![vec![
            "export const g = () => 2, h = 3;".to_string(),
            "export function k() {}".to_string(),
        ]]
    );
}

#[test]
fn multibyte_source_is_sliced_by_bytes() {
    let code = "// 注释\nexport function 加(a) { return \"你好\" + a; }";
    let (module, src) = parse_js_2_ast("u.js", code).unwrap();
    let (_, codes, ignored) = visit_ast(module, &src).unwrap();
    assert!(ignored.is_empty());
    assert_eq!(codes, vec![vec!["export function 加(a) { return \"你好\" + a; }".to_string()]]);
}

fn fn_decl(lo: u32, hi: u32) -> ExportDeclInfo {
    ExportDeclInfo { lo, hi, decl: DeclInfo::Fn { name: "f".to_string() } }
}

#[test]
fn collector_chunks_by_size() {
    let big = "x".repeat(5000);
    let source = format!("{}{}{}", big, big, "abc");
    let decls = vec![
        fn_decl(1, 5001),
        fn_decl(5001, 10001),
        fn_decl(10001, 10004),
        ExportDeclInfo { lo: 1, hi: 2, decl: DeclInfo::Other },
    ];
    let (codes, ignored) = collect_export_codes(&source, &decls);
    assert!(ignored.is_empty());
    assert_eq!(codes.len(), 2);
    assert_eq!(codes[0], vec![big.clone()]);
    assert_eq!(codes[1], vec![big.clone(), "abc".to_string()]);
}

#[test]
fn oversized_function_is_left_out() {
    let huge = "y".repeat(FUNCTION_CHUNK_MAX_SIZE + 10);
    let source = format!("ab{}", huge);
    let decls = vec![fn_decl(1, 2), fn_decl(3, 3 + huge.len() as u32), fn_decl(2, 3)];
    let (codes, ignored) = collect_export_codes(&source, &decls);
    assert_eq!(codes, vec![vec!["a".to_string(), "b".to_string()]]);
    assert_eq!(ignored, vec!["f".to_string()]);
}

#[test]
fn function_of_exactly_the_limit_is_kept() {
    let full = "w".repeat(FUNCTION_CHUNK_MAX_SIZE);
    let decls = vec![fn_decl(1, 1 + FUNCTION_CHUNK_MAX_SIZE as u32)];
    let (codes, ignored) = collect_export_codes(&full, &decls);
    assert_eq!(codes, vec![vec![full.clone()]]);
    assert!(ignored.is_empty());
}

#[test]
fn chunk_fills_up_to_the_limit_exactly() {
    let half = "z".repeat(FUNCTION_CHUNK_MAX_SIZE / 2);
    let source = format!("{}{}q", half, half);
    let h = (FUNCTION_CHUNK_MAX_SIZE / 2) as u32;
    let decls = vec![fn_decl(1, 1 + h), fn_decl(1 + h, 1 + 2 * h), fn_decl(1 + 2 * h, 2 + 2 * h)];
    let (codes, _) = collect_export_codes(&source, &decls);
    assert_eq!(codes, vec![vec![half.clone(), half.clone()], vec!["q".to_string()]]);
}

#[test]
fn get_source_code_appends_to_last_chunk() {
    let mut collector = ExportFnCollector::new("hello world");
    assert!(!collector.get_source_code(1, 6));
    assert!(!collector.get_source_code(7, 12));
    assert_eq!(collector.collected_codes, vec![vec!["hello".to_string(), "world".to_string()]]);
}

#[test]
fn match_export_skips_non_arrow_variables() {
    let mut collector = ExportFnCollector::new("const a = 1");
    let decl = ExportDeclInfo {
        lo: 1,
        hi: 12,
        decl: DeclInfo::Var {
            declarators: vec![VarDeclaratorInfo { name: Some("a".to_string()), init_is_arrow: false }],
        },
    };
    assert_eq!(collector.match_export_function_or_arrow_expr(&decl), None);
    assert!(collector.collected_codes.is_empty());
    let arrow = ExportDeclInfo {
        lo: 1,
        hi: 6,
        decl: DeclInfo::Var {
            declarators: vec![VarDeclaratorInfo { name: Some("a".to_string()), init_is_arrow: true }],
        },
    };
    assert_eq!(collector.match_export_function_or_arrow_expr(&arrow), None);
    assert_eq!(collector.collected_codes, vec![vec!["const".to_string()]]);
}

#[test]
fn try_collect_refuses_bad_exports() {
    let source = "héllo";
    // byte 3 is inside the two-byte 'é'
    assert!(try_collect_export_codes(source, &vec![fn_decl(1, 3)]).is_none());
    assert!(try_collect_export_codes(source, &vec![fn_decl(0, 2)]).is_none());
    assert!(try_collect_export_codes(source, &vec![fn_decl(3, 2)]).is_none());
    assert!(try_collect_export_codes(source, &vec![fn_decl(1, 8)]).is_none());
    let unnamed = ExportDeclInfo {
        lo: 1,
        hi: 2,
        decl: DeclInfo::Var { declarators: vec![VarDeclaratorInfo { name: None, init_is_arrow: true }] },
    };
    assert!(try_collect_export_codes(source, &vec![unnamed]).is_none());
    let unnamed_plain = ExportDeclInfo {
        lo: 1,
        hi: 2,
        decl: DeclInfo::Var { declarators: vec![VarDeclaratorInfo { name: None, init_is_arrow: false }] },
    };
    assert_eq!(try_collect_export_codes(source, &vec![unnamed_plain]), Some((vec![], vec![])));
    assert_eq!(
        try_collect_export_codes(source, &vec![fn_decl(1, 4)]),
        Some((vec![vec!["hé".to_string()]], vec![]))
    );
}

#[test]
fn destructured_arrow_export_is_refused() {
    let (module, src) = parse_js_2_ast("d.js", "export const [a] = () => 1;").unwrap();
    assert!(visit_ast(module, &src).is_none());
}

#[test]
fn find_code_block_takes_first_fence() {
    let reply = "Here:\n```typescript\nexport declare const a: number;\n```\nand ```js\nother\n```";
    let block = CodeBlock::find_code_block("src/a".to_string(), reply).unwrap();
    assert_eq!(block.file_name, "src/a");
    assert_eq!(block.language, "typescript");
    assert_eq!(block.content, "export declare const a: number;\n");
}

#[test]
fn find_code_block_accepts_crlf_and_cr() {
    let block = CodeBlock::find_code_block("f".to_string(), "```ts\r\nx\r\n```").unwrap();
    assert_eq!(block.language, "ts");
    assert_eq!(block.content, "x\r\n");
    let block = CodeBlock::find_code_block("f".to_string(), "```ts\ry```").unwrap();
    assert_eq!(block.content, "y");
}

#[test]
fn find_code_block_needs_a_language_and_a_closing_fence() {
    assert!(CodeBlock::find_code_block("f".to_string(), "```\ncode\n```").is_none());
    assert!(CodeBlock::find_code_block("f".to_string(), "```ts\ncode").is_none());
    assert!(CodeBlock::find_code_block("f".to_string(), "no code here").is_none());
}

#[test]
fn code_block_from_captures_names_the_block() {
    let block = code_block_from_captures("n".to_string(), Some(("ts".to_string(), "c".to_string()))).unwrap();
    assert_eq!(
        block,
        CodeBlock { file_name: "n".to_string(), language: "ts".to_string(), content: "c".to_string() }
    );
    assert!(code_block_from_captures("n".to_string(), None).is_none());
}

#[test]
fn transform_file_collects_the_file() {
    let file = File {
        name: "jump".to_string(),
        content: "export const go = (url) => { location.href = url }".to_string(),
        relative_name: "utils/jump".to_string(),
    };
    let (t, _, ignored) = transform_file(file).unwrap();
    assert!(ignored.is_empty());
    assert_eq!(t.file.relative_name, "utils/jump");
    assert_eq!(t.filter_code, vec![vec!["export const go = (url) => { location.href = url }".to_string()]]);
    let broken = File { name: "b".to_string(), content: "export function (".to_string(), relative_name: "b".to_string() };
    assert!(transform_file(broken).is_none());
}

#[test]
fn defaults_are_empty() {
    let t = auto_gen_d_ts::compile::Transformed::default();
    assert_eq!(t.file, File::default());
    assert!(t.filter_code.is_empty());
    let b = CodeBlock::default();
    assert!(b.file_name.is_empty() && b.language.is_empty() && b.content.is_empty());
}

#[test]
fn oversized_export_is_named() {
    let body = "x".repeat(FUNCTION_CHUNK_MAX_SIZE);
    let code = format!("export const big = () => \"{}\";\nexport function small() {{}}", body);
    let file = File { name: "big".to_string(), content: code, relative_name: "big".to_string() };
    let (t, _, ignored) = transform_file(file).unwrap();
    assert_eq!(ignored, vec!["big".to_string()]);
    assert_eq!(t.filter_code, vec![vec!["export function small() {}".to_string()]]);
}

#[test]
fn fence_without_language_is_not_a_block() {
    assert!(CodeBlock::find_code_block("f".to_string(), "```\nlet x = 1;\n```").is_none());
}
