use muic::linker::{ancestor_modules, ensure_module_decl, mod_exists, mod_file_content, DirEntry};
use muic::meta_scan::{scan_sources, SourceFile};
use muic::registry::{MetaFormatError, Registry};

#[test]
fn declared_module_is_found() {
    let src = "pub mod generated;\nfn main() {}\n".to_string();
    assert_eq!(mod_exists(src, "generated"), Ok(true));
}

#[test]
fn missing_module_is_not_found() {
    let src = "fn main() {}\n".to_string();
    assert_eq!(mod_exists(src, "generated"), Ok(false));
}

#[test]
fn check_is_syntax_aware_not_substring() {
    let src = "// mod generated\nlet s = \"mod generated\";\n".to_string();
    assert_eq!(mod_exists(src, "generated"), Ok(false));
}

#[test]
fn wiring_appends_once_and_only_once() {
    let original = "fn main() {}\n".to_string();
    let updated = match ensure_module_decl(original, "ui") {
        Ok(Some(u)) => u,
        other => panic!("expected an append, got {:?}", other),
    };
    assert_eq!(updated, "fn main() {}\n\npub mod ui;\n");
    // a second run on the linker's own output is a no-op
    assert_eq!(ensure_module_decl(updated, "ui"), Ok(None));
}

#[test]
fn ancestors_cover_every_directory_once() {
    let paths = vec![
        "widgets/buttons/ok.rs".to_string(),
        "widgets/label.rs".to_string(),
        "top.rs".to_string(),
    ];
    let mut dirs = ancestor_modules(&paths);
    dirs.sort();
    assert_eq!(dirs, vec!["".to_string(), "widgets".to_string(), "widgets/buttons".to_string()]);
}

#[test]
fn module_file_lists_directories_and_stems() {
    let entries = vec![
        DirEntry { name: "widgets".to_string(), is_dir: true },
        DirEntry { name: "mod.rs".to_string(), is_dir: false },
        DirEntry { name: "label.rs".to_string(), is_dir: false },
        DirEntry { name: "notes.txt".to_string(), is_dir: false },
    ];
    let content = mod_file_content(&entries);
    assert_eq!(content, "pub mod widgets;\npub mod label;\n");
}

#[test]
fn relisting_with_the_module_file_is_byte_identical() {
    let before = vec![
        DirEntry { name: "widgets".to_string(), is_dir: true },
        DirEntry { name: "label.rs".to_string(), is_dir: false },
    ];
    let after = vec![
        DirEntry { name: "widgets".to_string(), is_dir: true },
        DirEntry { name: "mod.rs".to_string(), is_dir: false },
        DirEntry { name: "label.rs".to_string(), is_dir: false },
    ];
    assert_eq!(mod_file_content(&before), mod_file_content(&after));
}

#[test]
fn load_error_names_the_offending_record() {
    let mut reg = Registry::new();
    let err = reg.load("a=b;broken;c=d;").unwrap_err();
    assert_eq!(err, MetaFormatError::RecordMissingEquals("broken".to_string()));
    // nothing was appended: the later good record did not land either
    assert_eq!(reg.lookup("a"), None);
    assert_eq!(reg.lookup("c"), None);
}

#[test]
fn sources_scan_concatenates_in_order() {
    let files = vec![
        SourceFile {
            contents: "#[ui_element(label)] pub struct MyLabel;".to_string(),
            path: "widgets".to_string(),
        },
        SourceFile {
            contents: "#[ui_element(btn)] struct B;".to_string(),
            path: "".to_string(),
        },
    ];
    let table = scan_sources(&files).unwrap();
    assert_eq!(table, "label=widgets::MyLabel;btn=B;");
}

#[test]
fn lookahead_does_not_swallow_a_second_keyword() {
    // the name check peeks: a keyword right after `mod` is itself re-examined
    let src = "mod mod generated;".to_string();
    assert_eq!(mod_exists(src, "generated"), Ok(true));
}
