use tylerharpool_blog::front_matter::{extract_title_and_summary, parse_front_matter};

fn strings(items: &[&str]) -> Vec<String> {
    items.iter().map(|s| s.to_string()).collect()
}

#[test]
fn parses_a_yaml_block() {
    let text = "---\ntitle: \"Hello World\"\ndate: 2024-01-15\ntags: [rust, \"web\", 'leptos']\ndraft: false\ncategory_id: 21\narea_id: 20\nsummary: A short one\nrelated_articles: [\"21.01\", 21.02]\n---\n# Heading\n\nBody text.\n";
    let (fm, body) = parse_front_matter(text).expect("front matter");
    assert_eq!(fm.title, "Hello World");
    assert_eq!(fm.date, Some("2024-01-15".to_string()));
    assert_eq!(fm.tags, strings(&["rust", "web", "leptos"]));
    assert!(!fm.draft);
    assert_eq!(fm.category_id, Some(21));
    assert_eq!(fm.area_id, Some(20));
    assert_eq!(fm.summary, Some("A short one".to_string()));
    assert_eq!(fm.related_articles, strings(&["21.01", "21.02"]));
    assert_eq!(body, "# Heading\n\nBody text.");
}

#[test]
fn no_delimiter_is_no_front_matter() {
    assert!(parse_front_matter("# Just a heading\n\ntext").is_none());
    assert!(parse_front_matter("").is_none());
}

#[test]
fn unterminated_block_is_no_front_matter() {
    assert!(parse_front_matter("---\ntitle: x\n").is_none());
    assert!(parse_front_matter("----").is_none());
}

#[test]
fn title_and_summary_from_body() {
    let (title, summary) = extract_title_and_summary("intro line\n# The Title  \nmore");
    assert_eq!(title, "The Title");
    assert_eq!(summary, "intro line");
}

#[test]
fn tags_read_the_same_in_every_quoting() {
    let expected = strings(&["a", "b", "c"]);
    let styles: [fn(&str) -> String; 3] =
        [|s| s.to_string(), |s| format!("'{}'", s), |s| format!("\"{}\"", s)];
    for first in styles {
        for second in styles {
            for third in styles {
                let text = format!(
                    "---\ntitle: t\ntags: [{}, {},{}  ]\n---\nbody",
                    first("a"),
                    second("b"),
                    third("c")
                );
                let (fm, _) = parse_front_matter(&text).expect("front matter");
                assert_eq!(fm.tags, expected, "{}", text);
            }
        }
    }
}

#[test]
fn toml_delimiters_work_too() {
    let (fm, body) = parse_front_matter("  \n+++\ntitle: Pluses\n+++\ntext --- more").expect("front matter");
    assert_eq!(fm.title, "Pluses");
    assert_eq!(body, "text --- more");
    let (fm, body) = parse_front_matter("------").expect("front matter");
    assert_eq!(fm.title, "Untitled");
    assert_eq!(body, "");
    assert!(parse_front_matter("---\ntitle: x\n+++\nbody").is_none());
}

#[test]
fn title_falls_back_to_heading_then_to_untitled() {
    let (fm, _) = parse_front_matter("---\ndate: 2024-01-01\n---\nintro\n# From Heading \nmore").expect("front matter");
    assert_eq!(fm.title, "From Heading");
    let (fm, _) = parse_front_matter("---\ntitle:\n---\n## Second level only").expect("front matter");
    assert_eq!(fm.title, "Untitled");
    let (fm, _) = parse_front_matter("---\ntitle: ''\n---\n# \nnext").expect("front matter");
    assert_eq!(fm.title, "Untitled");
}

#[test]
fn malformed_fields_degrade_alone() {
    let text = "---\ntitle: Kept\nno colon here\n: empty key\nunknown: ignored\narea_id: twenty\ncategory_id: 300\ntags: a, b\nrelated_articles: [\ndraft: maybe\nsummary: \"\"\ndate: \"not a date\"\n---\nbody";
    let (fm, body) = parse_front_matter(text).expect("front matter");
    assert_eq!(fm.title, "Kept");
    assert_eq!(fm.area_id, None);
    assert_eq!(fm.category_id, None);
    assert!(fm.tags.is_empty());
    assert!(fm.related_articles.is_empty());
    assert!(!fm.draft);
    assert_eq!(fm.summary, Some(String::new()));
    assert_eq!(fm.date, Some("not a date".to_string()));
    assert_eq!(body, "body");
}

#[test]
fn later_lines_override_earlier_ones() {
    let text = "---\ntitle: First\ntitle: Second\ndraft: true\ndraft: false\ntags: [a]\ntags: nothing\narea_id: 10\narea_id: x\n---\n";
    let (fm, _) = parse_front_matter(text).expect("front matter");
    assert_eq!(fm.title, "Second");
    assert!(!fm.draft);
    assert!(fm.tags.is_empty());
    assert_eq!(fm.area_id, None);
}

#[test]
fn values_are_split_at_the_first_colon() {
    let (fm, _) = parse_front_matter("---\n  title :  \"Rust: A Story\"  \nsummary: 'a: b'\n---\n").expect("front matter");
    assert_eq!(fm.title, "Rust: A Story");
    assert_eq!(fm.summary, Some("a: b".to_string()));
}

#[test]
fn summary_is_cut_at_150_characters() {
    let long = "é".repeat(151);
    let (_, summary) = extract_title_and_summary(&long);
    assert_eq!(summary, format!("{}...", "é".repeat(150)));
    let exact = "x".repeat(150);
    let (title, summary) = extract_title_and_summary(&format!("# \n\n  {}  \nnext", exact));
    assert_eq!(title, "");
    assert_eq!(summary, exact);
    let (title, summary) = extract_title_and_summary("");
    assert_eq!(title, "Untitled");
    assert_eq!(summary, "");
    let (_, summary) = extract_title_and_summary("# only\n#also a heading\n\n");
    assert_eq!(summary, "");
}

#[test]
fn empty_brackets_are_an_empty_list() {
    let (fm, _) = parse_front_matter("---\ntitle: t\ntags: []\nrelated_articles: [ ]\n---\n").expect("front matter");
    assert!(fm.tags.is_empty());
    assert!(fm.related_articles.is_empty());
    let (fm, _) = parse_front_matter("---\ntags: [a]\ntags: []\n---\n").expect("front matter");
    assert!(fm.tags.is_empty());
}
