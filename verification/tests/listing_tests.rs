use tylerharpool_blog::format::format_date;
use tylerharpool_blog::listing::{
    area_range_label, categories_of_area, category_among_projects, display_identifier,
    filter_by_tag, find_project_by_slug, next_page, page_items, page_numbers, previous_page, projects_in_category,
    search_projects, sort_newest_first, total_pages,
};
use tylerharpool_blog::model::{JDCategory, Project};

fn category(id: u8, name: &str, description: &str) -> JDCategory {
    JDCategory { id, area_id: (id / 10) * 10, name: name.to_string(), description: description.to_string() }
}

fn project(id: i64, title: &str, summary: &str, tags: &[&str], cat: Option<JDCategory>, created_at: i64) -> Project {
    Project {
        id: Some(id),
        title: title.to_string(),
        slug: String::new(),
        summary: summary.to_string(),
        content: String::new(),
        tech_stack: tags.iter().map(|t| t.to_string()).collect(),
        repo_url: None,
        live_url: None,
        thumbnail: None,
        created_at,
        updated_at: 0,
        jd_category: cat,
        original_path: String::new(),
        jd_identifier: String::new(),
        related_articles: Vec::new(),
    }
}

fn corpus() -> Vec<Project> {
    vec![
        project(1, "Rust Basics", "An intro", &["Rust"], Some(category(11, "Languages", "Rust and Go")), 100),
        project(2, "Cloud Notes", "About AWS", &["DevOps", "AWS"], Some(category(21, "Cloud", "Hosting")), 300),
        project(3, "Untagged", "go far", &[], None, 200),
        project(4, "Same Day", "later in list", &["rust"], Some(category(21, "Cloud", "Hosting")), 300),
    ]
}

fn ids(found: &[Project]) -> Vec<i64> {
    found.iter().map(|p| p.id.unwrap()).collect()
}

#[test]
fn newest_first_and_stable() {
    assert_eq!(ids(&sort_newest_first(&corpus())), vec![2, 4, 3, 1]);
    let extremes = vec![
        project(1, "", "", &[], None, i64::MIN),
        project(2, "", "", &[], None, i64::MAX),
        project(3, "", "", &[], None, 0),
    ];
    assert_eq!(ids(&sort_newest_first(&extremes)), vec![2, 3, 1]);
}

#[test]
fn search_looks_everywhere() {
    assert_eq!(ids(&search_projects(&corpus(), "")), vec![2, 4, 3, 1]);
    assert_eq!(ids(&search_projects(&corpus(), "RUST")), vec![4, 1]);
    assert_eq!(ids(&search_projects(&corpus(), "aws")), vec![2]);
    assert_eq!(ids(&search_projects(&corpus(), "hosting")), vec![2, 4]);
    assert_eq!(ids(&search_projects(&corpus(), "go")), vec![3, 1]);
    assert!(search_projects(&corpus(), "zzz").is_empty());
}

#[test]
fn tags_select_case_apart() {
    assert_eq!(ids(&filter_by_tag(&corpus(), "")), vec![1, 2, 3, 4]);
    assert_eq!(ids(&filter_by_tag(&corpus(), "rust")), vec![1, 4]);
    assert_eq!(ids(&filter_by_tag(&corpus(), "DEVOPS")), vec![2]);
    assert!(filter_by_tag(&corpus(), "rus").is_empty());
}

#[test]
fn selections_by_category_and_area() {
    assert_eq!(ids(&projects_in_category(&corpus(), 21)), vec![2, 4]);
    assert!(projects_in_category(&corpus(), 12).is_empty());
    assert_eq!(category_among_projects(&corpus(), 21).map(|c| c.name), Some("Cloud".to_string()));
    assert!(category_among_projects(&corpus(), 12).is_none());
    let categories = vec![category(11, "a", ""), category(21, "b", ""), category(12, "c", "")];
    let found: Vec<u8> = categories_of_area(&categories, 10).iter().map(|c| c.id).collect();
    assert_eq!(found, vec![11, 12]);
}

#[test]
fn pages() {
    assert_eq!(total_pages(0, 5), 1);
    assert_eq!(total_pages(1, 5), 1);
    assert_eq!(total_pages(5, 5), 1);
    assert_eq!(total_pages(6, 5), 2);
    assert_eq!(total_pages(11, 5), 3);
    assert_eq!(total_pages(12, 6), 2);
    assert_eq!(total_pages(usize::MAX, 1), usize::MAX);
    let many: Vec<Project> = (1..=12).map(|i| project(i, "", "", &[], None, 0)).collect();
    assert_eq!(ids(&page_items(&many, 1, 5)), vec![1, 2, 3, 4, 5]);
    assert_eq!(ids(&page_items(&many, 3, 5)), vec![11, 12]);
    assert_eq!(ids(&page_items(&many, 2, 6)), vec![7, 8, 9, 10, 11, 12]);
    assert!(page_items(&many, 4, 5).is_empty());
    assert!(page_items(&many, usize::MAX, 5).is_empty());
    assert!(page_items(&many, 2, usize::MAX).is_empty());
    assert_eq!(next_page(1, 3), 2);
    assert_eq!(next_page(3, 3), 3);
    assert_eq!(previous_page(2), 1);
    assert_eq!(previous_page(1), 1);
}

#[test]
fn page_buttons() {
    assert_eq!(page_numbers(1, 1), vec![1]);
    assert_eq!(page_numbers(1, 3), vec![1, 2, 3]);
    assert_eq!(page_numbers(1, 10), vec![1, 2, 3, 4, 5]);
    assert_eq!(page_numbers(2, 10), vec![1, 2, 3, 4, 5]);
    assert_eq!(page_numbers(5, 10), vec![3, 4, 5, 6, 7]);
    assert_eq!(page_numbers(9, 10), vec![6, 7, 8, 9, 10]);
    assert_eq!(page_numbers(10, 10), vec![6, 7, 8, 9, 10]);
    assert_eq!(page_numbers(3, 4), vec![1, 2, 3, 4]);
    assert!(page_numbers(1, 0).is_empty());
}

#[test]
fn slugs_address_documents() {
    let mut all = corpus();
    all[1].slug = "cloud-notes".to_string();
    all[3].slug = "cloud-notes".to_string();
    assert_eq!(find_project_by_slug(&all, "cloud-notes").and_then(|p| p.id), Some(2));
    assert_eq!(find_project_by_slug(&all, "").and_then(|p| p.id), Some(1));
    assert!(find_project_by_slug(&all, "missing").is_none());
}

#[test]
fn labels() {
    let mut p = project(1, "", "", &[], Some(category(21, "Cloud", "")), 0);
    assert_eq!(display_identifier(&p), "21");
    p.jd_identifier = "21.03".to_string();
    assert_eq!(display_identifier(&p), "21.03");
    assert_eq!(display_identifier(&project(1, "", "", &[], None, 0)), "");
    assert_eq!(area_range_label(20), "20-29");
    assert_eq!(area_range_label(0), "0-9");
    assert_eq!(area_range_label(250), "250-259");
}

#[test]
fn dates_are_written_as_days() {
    assert_eq!(format_date(0), Some("1970-01-01".to_string()));
    assert_eq!(format_date(1_709_251_200), Some("2024-03-01".to_string()));
    assert_eq!(format_date(-1), Some("1969-12-31".to_string()));
    assert_eq!(format_date(i64::MAX), None);
}
