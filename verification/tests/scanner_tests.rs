use tylerharpool_blog::cache::StructureCache;
use tylerharpool_blog::jd_path::SourcePath;
use tylerharpool_blog::scanner::{
    read_area_name, read_category_name, read_description, read_description_text,
    scan_content_structure,
};
use tylerharpool_blog::tree::FsNode;

fn path(text: &str) -> SourcePath {
    let name = text.rsplit('/').next().unwrap_or(text).to_string();
    SourcePath { text: text.to_string(), file_name: Some(name) }
}

fn dir(text: &str, entries: Vec<FsNode>) -> FsNode {
    FsNode::Directory { path: path(text), entries }
}

fn file(text: &str, content: &str) -> FsNode {
    FsNode::File { path: path(text), content: Some(content.to_string()) }
}

fn sample_tree() -> FsNode {
    dir(
        "content",
        vec![
            dir(
                "content/20-29 Digital Infrastructure",
                vec![
                    file("content/20-29 Digital Infrastructure/README.md", "# Infra\n\nCloud and\nDevOps notes.\n\nSecond paragraph."),
                    dir("content/20-29 Digital Infrastructure/22 Networks", vec![]),
                    dir(
                        "content/20-29 Digital Infrastructure/21 Cloud",
                        vec![file("content/20-29 Digital Infrastructure/21 Cloud/index.md", "About the cloud")],
                    ),
                    dir("content/20-29 Digital Infrastructure/31 Elsewhere", vec![]),
                    dir("content/20-29 Digital Infrastructure/20 Own", vec![]),
                ],
            ),
            dir("content/10-19 Technology", vec![dir("content/10-19 Technology/11 Languages", vec![])]),
            dir("content/15-19 Odd", vec![]),
            file("content/30-39 Not A Directory", ""),
        ],
    )
}

#[test]
fn area_names() {
    assert_eq!(read_area_name("20-29 Digital Infrastructure"), Some((20, "Digital Infrastructure".to_string())));
    assert_eq!(read_area_name("21-29 Off"), None);
    assert_eq!(read_area_name("Digital"), None);
    assert_eq!(read_area_name("20-29"), None);
}

#[test]
fn category_names() {
    assert_eq!(read_category_name("21 Cloud", 20), Some((21, "Cloud".to_string())));
    assert_eq!(read_category_name("31 Cloud", 20), None);
    assert_eq!(read_category_name("20 Cloud", 20), None);
}

#[test]
fn scan_finds_sorted_taxonomy() {
    let (areas, categories) = scan_content_structure(&sample_tree());
    let area_ids: Vec<u8> = areas.iter().map(|a| a.id).collect();
    assert_eq!(area_ids, vec![10, 20]);
    assert_eq!(areas[1].name, "Digital Infrastructure");
    assert_eq!(areas[1].description, "Cloud and DevOps notes.");
    assert_eq!(areas[0].description, "No description available");
    let ids: Vec<(u8, u8)> = categories.iter().map(|c| (c.id, c.area_id)).collect();
    assert_eq!(ids, vec![(11, 10), (21, 20), (22, 20)]);
    assert_eq!(categories[1].description, "About the cloud");
}

#[test]
fn cache_answers_after_refresh() {
    let mut cache = StructureCache::new();
    assert!(cache.get_cached_structure(false).is_none());
    cache.refresh_cache(&sample_tree());
    let first = cache.get_cached_structure(false).expect("filled");
    let second = cache.get_cached_structure(false).expect("filled");
    assert_eq!(first, second);
    assert_eq!(cache.get_cached_areas().map(|a| a.len()), Some(2));
    assert!(cache.get_cached_structure(true).is_none());
    assert!(cache.get_cached_categories().is_none());
}

#[test]
fn ignored_directories_give_nothing() {
    let ignored_area = dir(
        "content/20-29 Digital Infrastructure",
        vec![
            file("content/20-29 Digital Infrastructure/IGNORE", ""),
            dir("content/20-29 Digital Infrastructure/21 Cloud", vec![]),
        ],
    );
    let (areas, categories) = scan_content_structure(&dir("content", vec![ignored_area]));
    assert!(areas.is_empty());
    assert!(categories.is_empty());

    let ignored_category = dir(
        "content/20-29 Digital Infrastructure",
        vec![
            dir(
                "content/20-29 Digital Infrastructure/21 Cloud",
                vec![dir("content/20-29 Digital Infrastructure/21 Cloud/IGNORE", vec![])],
            ),
            dir("content/20-29 Digital Infrastructure/22 Networks", vec![]),
        ],
    );
    let (areas, categories) = scan_content_structure(&dir("content", vec![ignored_category]));
    assert_eq!(areas.len(), 1);
    let ids: Vec<u8> = categories.iter().map(|c| c.id).collect();
    assert_eq!(ids, vec![22]);
}

#[test]
fn a_root_that_is_no_directory_gives_nothing() {
    let (areas, categories) = scan_content_structure(&file("content", ""));
    assert!(areas.is_empty());
    assert!(categories.is_empty());
}

#[test]
fn names_are_read_as_the_patterns_say() {
    assert_eq!(read_area_name("0-9 System"), Some((0, "System".to_string())));
    assert_eq!(read_area_name("20-29   Padded name  "), Some((20, "Padded name".to_string())));
    assert_eq!(read_area_name("20-29 "), None);
    assert_eq!(read_area_name("200-299 Too long"), None);
    assert_eq!(read_area_name(" 20-29 Leading space"), None);
    assert_eq!(read_area_name("２０-２９ Fullwidth"), None);
    assert_eq!(read_category_name("21\tTabbed", 20), Some((21, "Tabbed".to_string())));
    assert_eq!(read_category_name("211 Long", 20), None);
    assert_eq!(read_category_name("9 Single", 0), Some((9, "Single".to_string())));
    assert_eq!(read_category_name("２１ Fullwidth", 20), None);
}

#[test]
fn descriptions() {
    assert_eq!(read_description_text("# Title\n\nfirst\n second \n\nthird"), Some("first second".to_string()));
    assert_eq!(read_description_text("# Title\n\n## Sub\n"), None);
    assert_eq!(read_description_text(""), None);
    assert_eq!(read_description_text("text\n# heading ends it"), Some("text".to_string()));
    let entries = vec![
        file("d/README.md", "# only a heading"),
        file("d/index.md", "from the index"),
    ];
    assert_eq!(read_description(&entries), "from the index");
    let unreadable = vec![FsNode::File { path: path("d/README.md"), content: None }];
    assert_eq!(read_description(&unreadable), "No description available");
}

#[test]
fn equal_ids_keep_the_order_of_the_listing() {
    let tree = dir(
        "c",
        vec![
            dir("c/20-29 B", vec![dir("c/20-29 B/21 Second", vec![])]),
            dir("c/20-25 A", vec![dir("c/20-25 A/21 Third", vec![]), dir("c/20-25 A/22 X", vec![])]),
            dir("c/10-19 First", vec![]),
        ],
    );
    let (areas, categories) = scan_content_structure(&tree);
    let names: Vec<&str> = areas.iter().map(|a| a.name.as_str()).collect();
    assert_eq!(names, vec!["First", "B", "A"]);
    let names: Vec<&str> = categories.iter().map(|c| c.name.as_str()).collect();
    assert_eq!(names, vec!["Second", "Third", "X"]);
}
