use font_catalog::lint::{check_name, check_sorted, ErrorContext, LintErrors};

#[test]
fn name_of_three_bytes_is_accepted() {
    assert_eq!(check_name("abc", ErrorContext::Groups), Ok(()));
}

#[test]
fn name_of_two_bytes_is_too_short() {
    assert_eq!(
        check_name("ab", ErrorContext::Fonts),
        Err(LintErrors::NameTooShort("ab".to_string(), ErrorContext::Fonts))
    );
}

#[test]
fn name_of_fifty_one_bytes_is_too_long() {
    let name = "a".repeat(51);
    assert_eq!(
        check_name(&name, ErrorContext::Group("g".to_string())),
        Err(LintErrors::NameTooLong(name.clone(), ErrorContext::Group("g".to_string())))
    );
}

#[test]
fn name_of_fifty_bytes_is_accepted() {
    let name = "a".repeat(50);
    assert_eq!(check_name(&name, ErrorContext::Groups), Ok(()));
}

#[test]
fn strictly_increasing_list_is_sorted() {
    let list = vec![1u32, 2, 5];
    assert!(check_sorted(&list, &|a: &u32, b: &u32| a < b));
}

#[test]
fn list_with_repetition_is_not_strictly_sorted() {
    let list = vec![1u32, 2, 2];
    assert!(!check_sorted(&list, &|a: &u32, b: &u32| a < b));
}

#[test]
fn empty_list_is_sorted() {
    let list: Vec<u32> = vec![];
    assert!(check_sorted(&list, &|a: &u32, b: &u32| a < b));
}

#[test]
fn list_with_repetition_is_sorted_by_a_relation_that_admits_equals() {
    let list = vec![1u32, 2, 2, 7];
    assert!(check_sorted(&list, &|a: &u32, b: &u32| a <= b));
    let list = vec![1u32, 3, 2];
    assert!(!check_sorted(&list, &|a: &u32, b: &u32| a <= b));
}
