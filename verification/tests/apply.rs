use organize::options::apply::{Apply, AsOption};
use organize::options::wrapper::ApplyWrapper;

#[test]
fn combine_apply_some_some() {
    let left = Some(Apply::All);
    let right = Some(Apply::Any);
    assert_eq!(left.combine(&right), right)
}

#[test]
fn combine_apply_some_none() {
    let left = Some(Apply::All);
    let right = None;
    assert_eq!(left.combine(&right), left)
}

#[test]
fn combine_apply_none_some() {
    let left = None;
    let right = Some(Apply::All);
    assert_eq!(left.combine(&right), right)
}

#[test]
fn combine_apply_vec_some_some_all_of_all_of() {
    let left = Some(Apply::AllOf(vec![0, 1]));
    let right = Some(Apply::AllOf(vec![2]));
    let expected = Some(Apply::AllOf(vec![0, 1, 2]));
    assert_eq!(left.combine(&right), expected)
}

#[test]
fn combine_apply_vec_some_some_any_of_any_of() {
    let left = Some(Apply::AnyOf(vec![0, 1]));
    let right = Some(Apply::AnyOf(vec![2]));
    let expected = Some(Apply::AnyOf(vec![0, 1, 2]));
    assert_eq!(left.combine(&right), expected)
}

#[test]
fn combine_apply_vec_some_some_all_of_any_of() {
    let left = Some(Apply::AllOf(vec![0, 1]));
    let right = Some(Apply::AnyOf(vec![2]));
    assert_eq!(left.combine(&right), right)
}

#[test]
fn combine_apply_vec_some_some_any_of_all_of() {
    let left = Some(Apply::AnyOf(vec![2]));
    let right = Some(Apply::AllOf(vec![0, 1]));
    assert_eq!(left.combine(&right), right)
}

#[test]
fn combine_apply_vec_some_none() {
    let left = Some(Apply::All);
    let right = None;
    assert_eq!(left.combine(&right), left)
}

#[test]
fn combine_apply_vec_none_some() {
    let left = None;
    let right = Some(Apply::All);
    assert_eq!(left.combine(&right), right)
}

#[test]
fn combine_apply_none_none() {
    let left: Option<Apply> = None;
    let right = None;
    assert_eq!(left.combine(&right), Some(Apply::default()))
}

#[test]
fn combine_wrapper_none_none() {
    let left: Option<ApplyWrapper> = None;
    let right = None;
    assert_eq!(left.combine(&right), Some(ApplyWrapper::default()))
}

#[test]
fn combine_wrapper_none_some() {
    let left: Option<ApplyWrapper> = None;
    let right = Some(ApplyWrapper::default());
    assert_eq!(left.combine(&right), right)
}

#[test]
fn combine_wrapper_some_some() {
    let left: Option<ApplyWrapper> = Some(ApplyWrapper {
        actions: Some(Apply::Any),
        filters: None,
    });
    let right = Some(ApplyWrapper {
        actions: None,
        filters: None,
    });
    let expected = Some(ApplyWrapper {
        actions: Some(Apply::Any),
        filters: Some(Apply::All),
    });
    assert_eq!(left.combine(&right), expected)
}

#[test]
fn combine_unsorted_lists_gives_sorted_union() {
    let left = Some(Apply::AllOf(vec![3, 1]));
    let right = Some(Apply::AllOf(vec![2, 1]));
    assert_eq!(left.combine(&right), Some(Apply::AllOf(vec![1, 2, 3])))
}

#[test]
fn combine_lists_commute() {
    let a = Some(Apply::AnyOf(vec![5, 0]));
    let b = Some(Apply::AnyOf(vec![4]));
    assert_eq!(a.combine(&b), b.combine(&a))
}

#[test]
fn apply_parse_and_print() {
    assert_eq!(Apply::from_str("all").unwrap(), Apply::All);
    assert_eq!(Apply::from_str("any").unwrap(), Apply::Any);
    assert!(Apply::from_str("some").is_err());
    assert_eq!(Apply::All.to_string(), "all");
}

#[test]
fn test_apply_str_all() {
    let value = Apply::All;
    assert_eq!(Apply::from_str("all"), Ok(value));
}

#[test]
fn test_apply_str_any() {
    let value = Apply::Any;
    assert_eq!(Apply::from_str("any"), Ok(value));
}

#[test]
fn test_apply_str_vec() {
    let value = Apply::AllOf(vec![0, 1, 2]);
    assert_eq!(Apply::from_seq(vec![0, 1, 2]), value);
}

#[test]
fn test_apply_all_of() {
    let value = Apply::AllOf(vec![0, 1, 2]);
    assert_eq!(Apply::from_map(Some("all_of"), vec![0, 1, 2]), Ok(value));
}

#[test]
fn test_apply_any_of() {
    let value = Apply::AnyOf(vec![0, 1, 2]);
    assert_eq!(Apply::from_map(Some("any_of"), vec![0, 1, 2]), Ok(value));
}
