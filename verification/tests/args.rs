use auto_gen_d_ts::args::{clean_path_input, next_path_step, wants_deep, PathProbe, PathStep};
use auto_gen_d_ts::text::{contains_str, ends_with_str, replace_str};

#[test]
fn path_input_loses_line_breaks() {
    assert_eq!(clean_path_input("C:\\a\\b\r\n"), "C:\\a\\b");
    assert_eq!(clean_path_input("/tmp/x\n"), "/tmp/x");
    assert_eq!(clean_path_input("a\rb\nc"), "abc");
}

#[test]
fn deep_answer() {
    assert!(wants_deep("y\r\n"));
    assert!(wants_deep("Y\r\n"));
    assert!(wants_deep("y"));
    assert!(wants_deep("y\n"));
    assert!(wants_deep("Y\n"));
    assert!(!wants_deep("y\n\n"));
    assert!(!wants_deep(" y\n"));
    assert!(!wants_deep("yes\r\n"));
    assert!(!wants_deep("n\r\n"));
    assert!(!wants_deep(""));
}

#[test]
fn path_steps() {
    assert_eq!(next_path_step(PathProbe::Found, true), PathStep::Done);
    assert_eq!(next_path_step(PathProbe::Missing, true), PathStep::Fail);
    assert_eq!(next_path_step(PathProbe::Missing, false), PathStep::CreateDir);
    assert_eq!(next_path_step(PathProbe::Failed, false), PathStep::Fail);
}

#[test]
fn text_operations() {
    assert!(contains_str("a__test__b", "__test__"));
    assert!(!contains_str("a_test_b", "__test__"));
    assert!(contains_str("abc", ""));
    assert!(ends_with_str("x.js", ".js"));
    assert!(!ends_with_str("js", ".js"));
    assert_eq!(replace_str("aaaa", "aa", "b"), "bb");
    assert_eq!(replace_str("aaa", "aa", "b"), "ba");
    assert_eq!(replace_str("中文.js", ".js", ""), "中文");
    assert_eq!(replace_str("ab", "", "x"), "xaxbx");
    assert_eq!(replace_str("", "", "x"), "x");
    assert_eq!(replace_str("", "a", "x"), "");
}
