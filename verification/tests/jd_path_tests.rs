use tylerharpool_blog::jd_path::{extract_jd_info_from_path, jd_identifier, SourcePath};

fn path(text: &str, file_name: &str) -> SourcePath {
    SourcePath { text: text.to_string(), file_name: Some(file_name.to_string()) }
}

#[test]
fn file_name_with_category_and_item() {
    let p = path("21.03 My Article.md", "21.03 My Article.md");
    assert_eq!(extract_jd_info_from_path(&p), (Some(20), Some(21), Some(3)));
}

#[test]
fn category_from_directory() {
    let p = path("content/21 Cloud/notes.md", "notes.md");
    assert_eq!(extract_jd_info_from_path(&p), (Some(20), Some(21), None));
}

#[test]
fn first_telling_component_wins() {
    let p = path("content/blog/20-29 Infra/21 Cloud/notes.md", "notes.md");
    assert_eq!(extract_jd_info_from_path(&p), (Some(20), None, None));
}

#[test]
fn identifier_forms() {
    assert_eq!(jd_identifier(Some(21), Some(3), &None), "21.03");
    assert_eq!(jd_identifier(Some(21), Some(123), &None), "21.123");
    assert_eq!(jd_identifier(Some(7), None, &None), "7");
    assert_eq!(jd_identifier(None, None, &Some("21.03 x.md".to_string())), "21.03");
    assert_eq!(jd_identifier(None, None, &Some("1..23 x.md".to_string())), "");
    assert_eq!(jd_identifier(None, None, &Some("21.0".to_string())), "");
    assert_eq!(jd_identifier(None, None, &None), "");
    assert_eq!(jd_identifier(None, None, &Some("ab.cd x.md".to_string())), "");
}

fn ids(text: &str, file_name: Option<&str>) -> (Option<u8>, Option<u8>, Option<u8>) {
    extract_jd_info_from_path(&SourcePath {
        text: text.to_string(),
        file_name: file_name.map(String::from),
    })
}

#[test]
fn file_names() {
    assert_eq!(ids("x", Some("21.03 My Article.md")), (Some(20), Some(21), Some(3)));
    assert_eq!(ids("x", Some("21.03.md")), (Some(20), Some(21), None));
    assert_eq!(ids("x", Some("21.7")), (Some(20), Some(21), Some(7)));
    assert_eq!(ids("x", Some("5.01 Low.md")), (None, None, None));
    assert_eq!(ids("x", Some("05.01 Low.md")), (Some(0), Some(5), Some(1)));
    assert_eq!(ids("x", Some("+7.01 Plus.md")), (Some(0), Some(7), Some(1)));
    assert_eq!(ids("x", Some("255.1 a")), (Some(250), Some(255), Some(1)));
    assert_eq!(ids("x", Some("256.1 a")), (None, None, None));
    assert_eq!(ids("x", Some("21.300 a")), (Some(20), Some(21), None));
    assert_eq!(ids("x", Some("21 Project")), (Some(20), Some(21), None));
    assert_eq!(ids("x", Some("20 Project")), (Some(20), Some(20), None));
    assert_eq!(ids("x", Some(" 21 Project")), (None, None, None));
    assert_eq!(ids("x", Some("notes")), (None, None, None));
}

#[test]
fn the_file_name_is_read_before_the_directories() {
    assert_eq!(ids("21 Project.md", Some("21 Project.md")), (Some(20), Some(21), None));
    assert_eq!(ids("other", Some("21 Project.md")), (Some(20), Some(21), None));
    assert_eq!(
        ids("content/22 Other/21 Project.md", Some("21 Project.md")),
        (Some(20), Some(21), None)
    );
    assert_eq!(
        ids("content/22 Other/21.03 Project.md", Some("21.03 Project.md")),
        (Some(20), Some(21), Some(3))
    );
    assert_eq!(ids("content/22 Other/v1.2 notes.md", Some("v1.2 notes.md")), (Some(20), Some(22), None));
    assert_eq!(ids("content/22 Other/7 of 9.md", Some("7 of 9.md")), (Some(0), Some(7), None));
    assert_eq!(ids("content/22 Other/notes.md", Some("notes.md")), (Some(20), Some(22), None));
}

#[test]
fn components_of_the_path() {
    assert_eq!(ids("content\\21 Cloud\\notes.md", Some("notes.md")), (Some(20), Some(21), None));
    assert_eq!(ids("20-29 Infra/notes.md", Some("notes.md")), (Some(20), None, None));
    assert_eq!(ids("21-29 Odd/22 Fine/notes.md", Some("notes.md")), (Some(20), Some(22), None));
    assert_eq!(ids("20 Ten/30-39 Area/notes.md", Some("notes.md")), (Some(30), None, None));
    assert_eq!(ids("1234 Long/notes.md", Some("notes.md")), (None, None, None));
    assert_eq!(ids("123 Big/notes.md", Some("notes.md")), (Some(120), Some(123), None));
    assert_eq!(ids("", None), (None, None, None));
    assert_eq!(ids("21 Cloud/file", None), (Some(20), Some(21), None));
    assert_eq!(ids("7 x-y/notes.md", Some("notes.md")), (Some(0), Some(7), None));
    assert_eq!(ids("10 a-b/notes.md", Some("notes.md")), (None, None, None));
    assert_eq!(ids("10-a b/notes.md", Some("notes.md")), (None, None, None));
    assert_eq!(ids("10-19/notes.md", Some("notes.md")), (None, None, None));
    assert_eq!(ids("10-19 /notes.md", Some("notes.md")), (Some(10), None, None));
}

#[test]
fn only_directories_are_walked() {
    assert_eq!(ids("20-29 Plan.md", Some("20-29 Plan.md")), (None, None, None));
    assert_eq!(ids("content/20-29 Plan.md", Some("20-29 Plan.md")), (None, None, None));
    assert_eq!(
        ids("content/20-29 Infra/20-29 Plan.md", Some("20-29 Plan.md")),
        (Some(20), None, None)
    );
    assert_eq!(ids("content/20-29 Infra", None), (Some(20), None, None));
    assert_eq!(ids("content/20-29 Infra", Some("other")), (Some(20), None, None));
}
