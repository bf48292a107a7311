use tylerharpool_blog::model::JDArea;
use tylerharpool_blog::order::{arrange, copy_all, stable_order_by_key, Record};

fn area(id: u8, name: &str) -> JDArea {
    JDArea { id, name: name.to_string(), description: String::new() }
}

fn names(areas: &[JDArea]) -> Vec<&str> {
    areas.iter().map(|a| a.name.as_str()).collect()
}

#[test]
fn positions_come_in_stable_order_of_key() {
    assert_eq!(stable_order_by_key(&vec![30, 10, 20, 10, 30]), vec![1, 3, 2, 0, 4]);
    assert_eq!(stable_order_by_key(&vec![u64::MAX, 0]), vec![1, 0]);
    assert_eq!(stable_order_by_key(&vec![7]), vec![0]);
    assert!(stable_order_by_key(&Vec::new()).is_empty());
}

#[test]
fn items_are_arranged_by_their_keys() {
    let items = vec![area(1, "c"), area(2, "a"), area(3, "b"), area(4, "a2")];
    let arranged = arrange(&items, &vec![3, 1, 2, 1]);
    assert_eq!(names(&arranged), vec!["a", "a2", "b", "c"]);
    let untouched = arrange(&items, &vec![3, 1]);
    assert_eq!(names(&untouched), vec!["c", "a", "b", "a2"]);
    assert!(arrange(&Vec::<JDArea>::new(), &Vec::new()).is_empty());
}

#[test]
fn copies_are_equal_to_what_was_copied() {
    let items = vec![area(10, "x"), area(20, "y")];
    assert_eq!(copy_all(&items), items);
    assert_eq!(items[0].duplicate(), items[0]);
}
