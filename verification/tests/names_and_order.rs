use font_catalog::sorting::sort_by_name;
use font_catalog::text::{contains_name, str_eq, str_lt};
use font_catalog::types::{SourceGroup, SourceUUID};

#[test]
fn names_are_ordered_by_their_bytes() {
    assert!(str_lt("Arial", "Verdana"));
    assert!(!str_lt("Verdana", "Arial"));
    assert!(!str_lt("Arial", "Arial"));
    assert!(str_lt("Arial", "Arial Black"));
    assert!(!str_lt("Arial Black", "Arial"));
    assert!(str_lt("", "a"));
    assert!(!str_lt("", ""));
    assert!(str_lt("Z", "a"));
    assert!(str_lt("z", "é"));
    assert_eq!(str_lt("é", "z"), "é" < "z");
}

#[test]
fn names_are_equal_when_their_characters_are() {
    assert!(str_eq("Arial", "Arial"));
    assert!(!str_eq("Arial", "arial"));
    assert!(!str_eq("Arial", "Arial "));
    assert!(str_eq("", ""));
}

#[test]
fn list_holds_a_name() {
    let names = vec!["Arial".to_string(), "Verdana".to_string()];
    assert!(contains_name(&names, "Verdana"));
    assert!(!contains_name(&names, "Times"));
    assert!(!contains_name(&vec![], "Times"));
}

#[test]
fn names_are_sorted() {
    let mut names: Vec<String> =
        ["Verdana", "Arial", "Times", "Arial Black", "arial"].iter().map(|s| s.to_string()).collect();
    let mut expected = names.clone();
    expected.sort();
    sort_by_name(&mut names);
    assert_eq!(names, expected);
    assert_eq!(names, vec!["Arial", "Arial Black", "Times", "Verdana", "arial"]);
}

#[test]
fn sorting_keeps_the_order_of_equal_names() {
    let group = |id: u128, name: &str| SourceGroup {
        id: SourceUUID::Uuid(id),
        name: name.to_string(),
        fonts: vec![],
    };
    let mut groups = vec![group(1, "b"), group(2, "a"), group(3, "b"), group(4, "a")];
    sort_by_name(&mut groups);
    assert_eq!(groups, vec![group(2, "a"), group(4, "a"), group(1, "b"), group(3, "b")]);
}

#[test]
fn sorting_an_empty_list_gives_an_empty_list() {
    let mut names: Vec<String> = vec![];
    sort_by_name(&mut names);
    assert!(names.is_empty());
}
