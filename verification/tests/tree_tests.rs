use tylerharpool_blog::jd_path::SourcePath;
use tylerharpool_blog::loader::should_skip_directory;
use tylerharpool_blog::tree::{contains_entry_named, name_is, wants_content, FsNode};

fn path(text: &str) -> SourcePath {
    let name = text.rsplit('/').next().unwrap_or(text).to_string();
    SourcePath { text: text.to_string(), file_name: Some(name) }
}

#[test]
fn names() {
    assert!(name_is(&Some("IGNORE".to_string()), "IGNORE"));
    assert!(!name_is(&Some("ignore".to_string()), "IGNORE"));
    assert!(!name_is(&None, "IGNORE"));
    let entries = vec![
        FsNode::File { path: path("d/a.md"), content: None },
        FsNode::Directory { path: path("d/IGNORE"), entries: Vec::new() },
        FsNode::File { path: SourcePath { text: "d/?".to_string(), file_name: None }, content: None },
    ];
    assert!(contains_entry_named(&entries, "IGNORE"));
    assert!(contains_entry_named(&entries, "a.md"));
    assert!(!contains_entry_named(&entries, "b.md"));
    assert_eq!(entries[0].path().text, "d/a.md");
    assert_eq!(entries[1].path().file_name, Some("IGNORE".to_string()));
}

#[test]
fn texts_that_are_looked_at() {
    assert!(wants_content("a.md"));
    assert!(wants_content("README.md"));
    assert!(wants_content("index.md"));
    assert!(wants_content(".md"));
    assert!(!wants_content("a.MD"));
    assert!(!wants_content("md"));
    assert!(!wants_content("a.md.bak"));
    assert!(!wants_content(""));
}

#[test]
fn directories_that_are_passed_over() {
    let none: Vec<FsNode> = Vec::new();
    assert!(should_skip_directory(&Some(".obsidian".to_string()), &none));
    assert!(should_skip_directory(&Some("03 Templates".to_string()), &none));
    assert!(!should_skip_directory(&Some("03 templates".to_string()), &none));
    assert!(!should_skip_directory(&None, &none));
    let marked = vec![FsNode::File { path: path("d/IGNORE"), content: None }];
    assert!(should_skip_directory(&Some("anything".to_string()), &marked));
    assert!(should_skip_directory(&None, &marked));
}
