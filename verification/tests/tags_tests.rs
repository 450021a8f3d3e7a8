use conformance::tags::{all_distinct, contains_tag, copy_tags, without};

fn list(tags: &[&str]) -> Vec<Vec<u8>> {
    tags.iter().map(|t| t.as_bytes().to_vec()).collect()
}

#[test]
fn contains_tag_finds_whole_tags() {
    let l = list(&["len_zero", "identity_op"]);
    assert!(contains_tag(&l, b"len_zero"));
    assert!(contains_tag(&l, b"identity_op"));
    assert!(!contains_tag(&l, b"len"));
    assert!(!contains_tag(&l, b""));
    assert!(!contains_tag(&list(&[]), b"len_zero"));
}

#[test]
fn all_distinct_finds_repeats() {
    assert!(all_distinct(&list(&[])));
    assert!(all_distinct(&list(&["a"])));
    assert!(all_distinct(&list(&["a", "b", "c"])));
    assert!(!all_distinct(&list(&["a", "a"])));
    assert!(!all_distinct(&list(&["a", "b", "c", "b"])));
    assert!(!all_distinct(&list(&["", "b", ""])));
}

#[test]
fn copy_tags_copies() {
    let l = list(&["a", "", "b", "a"]);
    assert_eq!(copy_tags(&l), l);
    assert_eq!(copy_tags(&list(&[])), list(&[]));
}

#[test]
fn without_is_the_difference_in_order() {
    assert_eq!(without(&list(&["a", "b", "c", "d"]), &list(&["d", "b"])), list(&["a", "c"]));
    assert_eq!(without(&list(&["a", "b"]), &list(&[])), list(&["a", "b"]));
    assert_eq!(without(&list(&["a", "b"]), &list(&["b", "a", "c"])), list(&[]));
    assert_eq!(without(&list(&[]), &list(&["a"])), list(&[]));
    assert_eq!(without(&list(&["a", "b", "a"]), &list(&["b"])), list(&["a", "a"]));
}
