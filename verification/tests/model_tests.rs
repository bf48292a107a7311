use tylerharpool_blog::model::{
    area_name_for, find_area_by_id, find_category_by_id, get_all_areas, get_all_categories, JDArea,
    JDCategory,
};

fn area(id: u8, name: &str) -> JDArea {
    JDArea { id, name: name.to_string(), description: String::new() }
}

fn category(id: u8, area_id: u8) -> JDCategory {
    JDCategory { id, area_id, name: format!("c{}", id), description: String::new() }
}

#[test]
fn defaults_stand_in_for_an_empty_scan() {
    let areas = get_all_areas(Vec::new());
    let ids: Vec<u8> = areas.iter().map(|a| a.id).collect();
    assert_eq!(ids, vec![10, 20, 30, 40, 50]);
    assert_eq!(areas[1].name, "Digital Infrastructure");
    assert_eq!(areas[4].description, "Trends, case studies, and industry analysis");
    let categories = get_all_categories(Vec::new());
    let ids: Vec<(u8, u8)> = categories.iter().map(|c| (c.id, c.area_id)).collect();
    assert_eq!(ids, vec![(11, 10), (12, 10), (13, 10)]);
    assert_eq!(categories[0].name, "Programming Languages");
}

#[test]
fn a_scan_that_found_something_is_served_as_it_is() {
    let areas = get_all_areas(vec![area(70, "Only")]);
    assert_eq!(areas, vec![area(70, "Only")]);
    let categories = get_all_categories(vec![category(71, 70)]);
    assert_eq!(categories, vec![category(71, 70)]);
}

#[test]
fn category_lookup() {
    let categories = vec![category(11, 10), category(21, 20), category(22, 20)];
    assert_eq!(find_category_by_id(&categories, 21).map(|c| c.area_id), Some(20));
    assert!(find_category_by_id(&categories, 23).is_none());
}

#[test]
fn orphaned_category_gets_a_placeholder() {
    let areas = vec![area(10, "Technology"), area(20, "Infrastructure")];
    assert_eq!(area_name_for(&areas, &category(21, 20)), "Infrastructure");
    assert_eq!(area_name_for(&areas, &category(31, 30)), "Unknown Area");
    assert!(find_area_by_id(&areas, 30).is_none());
}
