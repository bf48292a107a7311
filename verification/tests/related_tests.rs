use tylerharpool_blog::model::{JDCategory, Project};
use tylerharpool_blog::related::{count_common_tags, find_related, find_similar_projects};

fn project(id: i64, identifier: &str, tags: &[&str], category: Option<u8>, links: &[&str]) -> Project {
    Project {
        id: Some(id),
        title: format!("Project {}", id),
        slug: format!("project-{}", id),
        summary: String::new(),
        content: String::new(),
        tech_stack: tags.iter().map(|t| t.to_string()).collect(),
        repo_url: None,
        live_url: None,
        thumbnail: None,
        created_at: 0,
        updated_at: 0,
        jd_category: category.map(|c| JDCategory {
            id: c,
            area_id: (c / 10) * 10,
            name: String::new(),
            description: String::new(),
        }),
        original_path: String::new(),
        jd_identifier: identifier.to_string(),
        related_articles: links.iter().map(|t| t.to_string()).collect(),
    }
}

fn ids(found: &[Project]) -> Vec<i64> {
    found.iter().map(|p| p.id.unwrap()).collect()
}

#[test]
fn declared_link_comes_first() {
    let target = project(1, "21.00", &["Rust", "Leptos"], Some(21), &["21.01"]);
    let corpus = vec![
        target.clone(),
        project(2, "21.02", &["Rust", "Leptos"], Some(21), &[]),
        project(3, "21.01", &[], Some(22), &[]),
    ];
    assert_eq!(ids(&find_related(&target, &corpus, 3)), vec![3, 2]);
    assert_eq!(ids(&find_related(&target, &corpus, 1)), vec![3]);
}

#[test]
fn most_tags_in_common_wins() {
    let target = project(1, "", &["Rust", "Leptos"], None, &[]);
    let corpus = vec![
        target.clone(),
        project(2, "", &["Rust"], None, &[]),
        project(3, "", &["Leptos", "Rust", "Web"], None, &[]),
    ];
    assert_eq!(ids(&find_related(&target, &corpus, 1)), vec![3]);
    assert_eq!(ids(&find_related(&target, &corpus, 3)), vec![3, 2]);
}

#[test]
fn ties_keep_corpus_order() {
    let target = project(1, "", &["a", "b"], None, &[]);
    let corpus = vec![
        project(2, "", &["a"], None, &[]),
        project(3, "", &["b", "a"], None, &[]),
        project(4, "", &["b"], None, &[]),
        project(5, "", &["c"], None, &[]),
    ];
    assert_eq!(ids(&find_similar_projects(&target, &corpus, 10)), vec![3, 2, 4]);
    assert_eq!(ids(&find_similar_projects(&target, &corpus, 2)), vec![3, 2]);
    assert!(find_similar_projects(&target, &corpus, 0).is_empty());
}

#[test]
fn category_fills_the_rest() {
    let target = project(1, "21.01", &["Rust"], Some(21), &["21.04", "none"]);
    let corpus = vec![
        project(2, "21.02", &[], Some(21), &[]),
        target.clone(),
        project(3, "21.03", &["Rust"], Some(22), &[]),
        project(4, "21.04", &["Rust"], Some(21), &[]),
        project(5, "21.05", &[], Some(21), &[]),
        project(6, "22.01", &[], Some(22), &[]),
    ];
    assert_eq!(ids(&find_related(&target, &corpus, 4)), vec![4, 3, 2, 5]);
    assert_eq!(ids(&find_related(&target, &corpus, 3)), vec![4, 3, 2]);
    assert!(find_related(&target, &corpus, 0).is_empty());
}

#[test]
fn nothing_related_is_an_empty_list() {
    let target = project(1, "", &[], None, &[]);
    let corpus = vec![target.clone(), project(2, "", &["x"], Some(11), &[])];
    assert!(find_related(&target, &corpus, 3).is_empty());
}

#[test]
fn common_tags_count_each_listed_tag() {
    let a = vec!["x".to_string(), "y".to_string(), "x".to_string()];
    let b = vec!["x".to_string(), "z".to_string()];
    assert_eq!(count_common_tags(&a, &b), 2);
    assert_eq!(count_common_tags(&b, &a), 1);
}
