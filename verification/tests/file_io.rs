use auto_gen_d_ts::compile::gen::CodeBlock;
use auto_gen_d_ts::file_io::read::{
    entry_action, join_relative_name, js_stem_of, root_file_stem, walked_dir_record, EntryAction,
    EntryInfo, FolderWalk,
};
use auto_gen_d_ts::file_io::write::{dts_file_name, plan_dts_files, DtsWrite, OutputTarget};

fn block(file_name: &str, content: &str) -> CodeBlock {
    CodeBlock { file_name: file_name.to_string(), language: "js".to_string(), content: content.to_string() }
}

fn write(file_name: &str, content: &str) -> DtsWrite {
    DtsWrite { file_name: file_name.to_string(), content: content.to_string() }
}

#[test]
fn entries_of_a_folder() {
    match entry_action("", "jump.js", true, false, false) {
        EntryAction::ReadJs { name, relative_name } => {
            assert_eq!(name, "jump");
            assert_eq!(relative_name, "jump");
        }
        _ => panic!("a .js file is read"),
    }
    match entry_action("utils/dom", "a.js.b.js", true, false, true) {
        EntryAction::ReadJs { name, relative_name } => {
            assert_eq!(name, "a.b");
            assert_eq!(relative_name, "utils/dom/a.b");
        }
        _ => panic!("a .js file is read"),
    }
    assert!(matches!(entry_action("", "style.css", true, false, true), EntryAction::Skip));
    assert!(matches!(entry_action("", "x__test__.js", true, false, true), EntryAction::Skip));
    assert!(matches!(entry_action("", "__test__", false, true, true), EntryAction::Skip));
    assert!(matches!(entry_action("", "utils", false, true, false), EntryAction::Skip));
    match entry_action("src", "utils", false, true, true) {
        EntryAction::Descend { prefix } => assert_eq!(prefix, "src/utils"),
        _ => panic!("a folder is walked when deep"),
    }
    assert!(matches!(entry_action("", "link", false, false, true), EntryAction::Skip));
}

#[test]
fn names_and_stems() {
    assert_eq!(join_relative_name("", "a"), "a");
    assert_eq!(join_relative_name("x/y", "a"), "x/y/a");
    assert_eq!(js_stem_of("a..jsjs"), "a.js");
    assert_eq!(root_file_stem("main.js"), Some("main".to_string()));
    assert_eq!(root_file_stem("main.ts"), None);
    assert_eq!(walked_dir_record(""), None);
    assert_eq!(walked_dir_record("tt/astts"), Some("tt/astts".to_string()));
}

#[test]
fn test_generate_dts_files() {
    let blocks = vec![block("file1", "content1"), block("file2", "content2")];
    let writes = plan_dts_files(OutputTarget::Dir, &blocks).unwrap();
    assert_eq!(writes, vec![write("file1.d.ts", "content1"), write("file2.d.ts", "content2")]);
}

#[test]
fn plan_beside_a_file_or_refused() {
    let blocks = vec![block("tt/astts/dss/jump", "x"), block("ttt/lock", "y")];
    assert_eq!(plan_dts_files(OutputTarget::File, &blocks).unwrap(), vec![write("tt/astts/dss/jump.d.ts", "x")]);
    assert!(plan_dts_files(OutputTarget::Other, &blocks).is_err());
    assert_eq!(dts_file_name("ttt/lock"), "ttt/lock.d.ts");
}

#[test]
fn test_gen_absoulte_path() {
        let code_blocks = vec![
            CodeBlock {
                file_name: String::from("tt/astts/dss/jump"),
                language: "typescript".to_string(),
                content: "\nimport { GetterTree, StateTree } from 'vuex';\n\nexport type CommData = {\n    isOem?: boolean;\n    isDebug?: boolean;\n    isPre?: boolean;\n    isLoginO?: boolean;\n    aid?: number;\n    siteId?: number;\n    _allSiteMallDomain?: string;\n    _isChanged?: boolean;\n};\n\ntype VuexStore = {\n    
        $store: {\n        state: StateTree;\n        getters: {\n            ['defData/getUltUpdateUrl']: string;\n            ['commData/_allSiteMallDomain']: string;\n        };\n    };\n};\n\nexport interface MallApp {\n    simplePopupWindow(options: { text: string }, callback: () => void, closeCallback: (isSave: boolean) 
        => void): void;\n    bigSave(callback?: () => void): void;\n}\n\ndeclare const jumpToUpdateSiteVersion: (updateUrl?: string | null) => void;\n\ndeclare const openMallTopManageFrame: (\n    initPage: string,\n    params?: string,\n) => void;\n\ndeclare const openTopManageFrame: (\n    initPage: string,\n    params?: string,\n    force?: boolean,\n    afterJump?: () => void,\n) => void;\n".to_string(),
            },
            CodeBlock {
                file_name: "ttt/lock".to_string(),
                language: "typescript".to_string(),
                content: "\nexport type TriggerLock = {\n    trigger: <T>(callback: () => Promise<T>) => Promise<T>;\n};\n\nexport const LockerWrapper: <T>(\n    locker: TriggerLock,\n    func: (...args: any[]) => Promise<T> | T\n) => (...args: any[]) => Promise<T>;\n".to_string(),
            }
        ];
        let writes = plan_dts_files(OutputTarget::Dir, &code_blocks).unwrap();
        assert_eq!(writes.len(), 2);
        assert_eq!(writes[0].file_name, "tt/astts/dss/jump.d.ts");
        assert_eq!(writes[0].content, code_blocks[0].content);
        assert_eq!(writes[1].file_name, "ttt/lock.d.ts");
        assert_eq!(writes[1].content, code_blocks[1].content);
}

fn info(name: &str, is_file: bool, is_dir: bool) -> EntryInfo {
    EntryInfo { name: name.to_string(), is_file, is_dir }
}

#[test]
fn folder_walk_records_folders_parents_first() {
    let mut walk = FolderWalk::new(true);
    let actions = walk.visit_dir("", &vec![info("a.js", true, false), info("utils", false, true), info("x.css", true, false)]);
    assert!(matches!(&actions[0], EntryAction::ReadJs { name, relative_name } if name == "a" && relative_name == "a"));
    assert!(matches!(&actions[1], EntryAction::Descend { prefix } if prefix == "utils"));
    assert!(matches!(&actions[2], EntryAction::Skip));
    walk.add_file("", "a".to_string(), "A".to_string());
    assert_eq!(walk.to_walk, vec!["utils".to_string()]);
    let actions = walk.visit_dir("utils", &vec![info("dom", false, true), info("b.js", true, false)]);
    assert!(matches!(&actions[0], EntryAction::Descend { prefix } if prefix == "utils/dom"));
    walk.add_file("utils", "b".to_string(), "B".to_string());
    walk.visit_dir("utils/dom", &vec![]);
    assert_eq!(walk.dirs, vec!["utils".to_string(), "utils/dom".to_string()]);
    let names: Vec<&str> = walk.contents.iter().map(|f| f.relative_name.as_str()).collect();
    assert_eq!(names, vec!["a", "utils/b"]);
}

#[test]
fn shallow_walk_records_no_folder() {
    let mut walk = FolderWalk::new(false);
    let actions = walk.visit_dir("", &vec![info("utils", false, true), info("m.js", true, false)]);
    assert!(matches!(&actions[0], EntryAction::Skip));
    walk.add_file("", "m".to_string(), "M".to_string());
    assert!(walk.dirs.is_empty());
    assert!(walk.to_walk.is_empty());
    assert_eq!(walk.contents[0].relative_name, "m");
}
