use tylerharpool_blog::format::{parse_date_string, timestamp_from_days};
use tylerharpool_blog::jd_path::SourcePath;
use tylerharpool_blog::loader::{
    assign_ids, is_document_file, load_file, load_markdown_files, load_projects,
    markdown_to_projects,
};
use tylerharpool_blog::model::JDCategory;
use tylerharpool_blog::resolver::resolve_category;
use tylerharpool_blog::slug::slug_from_title;
use tylerharpool_blog::tree::FsNode;

fn path(text: &str) -> SourcePath {
    let name = text.rsplit('/').next().unwrap_or(text).to_string();
    SourcePath { text: text.to_string(), file_name: Some(name) }
}

fn dir(text: &str, entries: Vec<FsNode>) -> FsNode {
    FsNode::Directory { path: path(text), entries }
}

fn file(text: &str, content: &str) -> FsNode {
    FsNode::File { path: path(text), content: Some(content.to_string()) }
}

fn category(id: u8, area_id: u8, name: &str) -> JDCategory {
    JDCategory { id, area_id, name: name.to_string(), description: String::new() }
}

fn taxonomy() -> Vec<JDCategory> {
    vec![category(11, 10, "Languages"), category(22, 20, "Networks"), category(21, 20, "Cloud")]
}

fn content_tree() -> FsNode {
    dir(
        "blog",
        vec![
            file("blog/21.03 My Article.md", "---\ntitle: My Article\ndate: 2024-03-01\ntags: [Rust, Leptos]\n---\nBody of the article."),
            file("blog/README.md", "# Readme"),
            file("blog/index.md", "# Index"),
            file("blog/Note Template.md", "template"),
            file("blog/picture.png", "png"),
            FsNode::File { path: path("blog/unreadable.md"), content: None },
            dir("blog/.obsidian", vec![file("blog/.obsidian/config.md", "x")]),
            dir("blog/03 Templates", vec![file("blog/03 Templates/t.md", "x")]),
            dir(
                "blog/private",
                vec![file("blog/private/IGNORE", ""), file("blog/private/secret.md", "# Secret")],
            ),
            dir(
                "blog/11 Languages",
                vec![
                    file("blog/11 Languages/draft.md", "---\ntitle: Not Yet\ndraft: TRUE\n---\ntext"),
                    file("blog/11 Languages/plain.md", "\n# Plain Title\n\nFirst paragraph here.\n"),
                ],
            ),
        ],
    )
}

#[test]
fn slug_of_a_title() {
    assert_eq!(slug_from_title("Building a Modern Web App!"), "building-a-modern-web-app");
    assert_eq!(slug_from_title(""), "");
    assert_eq!(slug_from_title("Ünïcode  & Ärger 42"), "ünïcode---ärger-42");
}

#[test]
fn dates() {
    assert_eq!(parse_date_string("1970-01-01"), Some(0));
    assert_eq!(parse_date_string("2024-03-01"), Some(1_709_251_200));
    assert_eq!(parse_date_string("1969-12-31"), Some(-86_400));
    assert_eq!(parse_date_string("2024-02-30"), None);
    assert_eq!(parse_date_string("yesterday"), None);
    assert_eq!(timestamp_from_days(Some(719_164)), Some(86_400));
    assert_eq!(timestamp_from_days(None), None);
}

#[test]
fn document_names() {
    assert!(is_document_file("21.03 My Article.md"));
    assert!(!is_document_file("README.md"));
    assert!(!is_document_file("index.md"));
    assert!(!is_document_file("My Template.md"));
    assert!(is_document_file(".md"));
    assert!(is_document_file("a.b.md"));
    assert!(!is_document_file("a.MD"));
    assert!(!is_document_file("md"));
    assert!(!is_document_file("notes.txt"));
}

#[test]
fn walk_collects_documents_in_order() {
    let files = load_markdown_files(&content_tree());
    let names: Vec<String> = files.iter().map(|f| f.0.file_name.clone().unwrap()).collect();
    assert_eq!(names, vec!["21.03 My Article.md", "draft.md", "plain.md"]);
    assert!(files[1].1.draft);
    assert_eq!(files[2].1.title, "Plain Title");
    assert_eq!(files[2].1.summary, Some("First paragraph here.".to_string()));
    assert_eq!(files[2].1.category_id, Some(11));
    assert_eq!(files[2].1.area_id, Some(10));
    assert_eq!(files[2].2, "\n# Plain Title\n\nFirst paragraph here.\n");
}

#[test]
fn a_file_as_root_gives_nothing() {
    assert!(load_markdown_files(&file("blog/a.md", "# A")).is_empty());
}

#[test]
fn drafts_never_reach_the_corpus() {
    let files = load_markdown_files(&content_tree());
    let projects = markdown_to_projects(&files, &[], &taxonomy(), 1000);
    let titles: Vec<&str> = projects.iter().map(|p| p.title.as_str()).collect();
    assert_eq!(titles, vec!["My Article", "Plain Title"]);
    for case in ["true", "TRUE", "True", "tRuE", "\"true\""] {
        let text = format!("---\ntitle: T\ndraft: {}\n---\nbody", case);
        let loaded = vec![load_file(&path("a.md"), &text)];
        assert!(markdown_to_projects(&loaded, &[], &taxonomy(), 0).is_empty());
    }
    let kept = vec![load_file(&path("a.md"), "---\ntitle: T\ndraft: yes\n---\nbody")];
    assert_eq!(markdown_to_projects(&kept, &[], &taxonomy(), 0).len(), 1);
}

#[test]
fn records_carry_what_was_loaded() {
    let projects = load_projects(&content_tree(), &[], &taxonomy(), 1000);
    assert_eq!(projects.len(), 2);
    let first = &projects[0];
    assert_eq!(first.id, Some(1));
    assert_eq!(first.slug, "my-article");
    assert_eq!(first.summary, "Body of the article.");
    assert_eq!(first.content, "Body of the article.");
    assert_eq!(first.tech_stack, vec!["Rust".to_string(), "Leptos".to_string()]);
    assert_eq!(first.created_at, 1_709_251_200);
    assert_eq!(first.updated_at, 1000);
    assert_eq!(first.jd_identifier, "21.03");
    assert_eq!(first.original_path, "blog/21.03 My Article.md");
    assert_eq!(first.jd_category.as_ref().map(|c| c.id), Some(21));
    let second = &projects[1];
    assert_eq!(second.id, Some(2));
    assert_eq!(second.created_at, 1000);
    assert_eq!(second.jd_identifier, "11");
    assert_eq!(second.jd_category.as_ref().map(|c| c.id), Some(11));
}

#[test]
fn ids_count_from_one() {
    let files = load_markdown_files(&content_tree());
    let projects = assign_ids(markdown_to_projects(&files, &[], &taxonomy(), 0));
    let ids: Vec<Option<i64>> = projects.iter().map(|p| p.id).collect();
    assert_eq!(ids, vec![Some(1), Some(2)]);
}

#[test]
fn category_precedence() {
    let cats = taxonomy();
    let id = |c: Option<JDCategory>| c.map(|c| c.id);
    assert_eq!(id(resolve_category(Some(11), Some(21), Some(20), None, &cats)), Some(11));
    assert_eq!(id(resolve_category(None, Some(21), Some(10), None, &cats)), Some(21));
    assert_eq!(id(resolve_category(None, None, Some(20), Some(10), &cats)), Some(21));
    assert_eq!(id(resolve_category(None, None, None, Some(10), &cats)), Some(11));
    assert_eq!(id(resolve_category(None, None, None, None, &cats)), None);
    assert_eq!(id(resolve_category(Some(99), Some(22), None, None, &cats)), Some(22));
    assert_eq!(id(resolve_category(Some(99), Some(98), Some(20), None, &cats)), Some(21));
    assert_eq!(id(resolve_category(Some(99), None, Some(30), None, &cats)), None);
}

#[test]
fn identifier_and_category_are_settled_apart() {
    let text = "---\ntitle: Elsewhere\ncategory_id: 11\n---\nbody";
    let loaded = vec![load_file(&path("blog/21.03 Elsewhere.md"), text)];
    let projects = markdown_to_projects(&loaded, &[], &taxonomy(), 0);
    assert_eq!(projects[0].jd_identifier, "21.03");
    assert_eq!(projects[0].jd_category.as_ref().map(|c| c.id), Some(11));
}

#[test]
fn summary_and_date_fall_back() {
    let text = "---\ntitle: T\nsummary: \"\"\ndate: someday\n---\n# T\n\nFrom the body.";
    let loaded = vec![load_file(&path("a.md"), text)];
    let projects = markdown_to_projects(&loaded, &[], &taxonomy(), 42);
    assert_eq!(projects[0].summary, "From the body.");
    assert_eq!(projects[0].created_at, 42);
    assert_eq!(projects[0].updated_at, 42);
    assert_eq!(projects[0].id, None);
    assert_eq!(projects[0].jd_category, None);
    assert_eq!(projects[0].jd_identifier, "");
    assert_eq!(projects[0].slug, "t");
}
