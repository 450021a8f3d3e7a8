use conformance::report::{Diagnostic, Location, ViolationReport};

fn b(text: &str) -> Vec<u8> {
    text.as_bytes().to_vec()
}

fn at(line: u32, column: u32) -> Location {
    Location { line, column }
}

#[test]
fn new_report_is_empty() {
    let report = ViolationReport::new();
    assert!(report.is_empty());
    assert_eq!(report.tag_count(), 0);
    assert!(report.tag_list().is_empty());
    assert!(!report.contains(b"identity_op"));
    assert!(report.occurrences(b"identity_op").is_empty());
}

#[test]
fn record_groups_by_tag_in_order_of_first_appearance() {
    let mut report = ViolationReport::new();
    report.record(b("needless_return"), at(7, 5));
    report.record(b("identity_op"), at(142, 13));
    report.record(b("needless_return"), at(3, 1));
    report.record(b("identity_op"), at(143, 13));
    report.record(b("len_zero"), at(55, 8));
    report.record(b("needless_return"), at(7, 5));

    assert!(!report.is_empty());
    assert_eq!(report.tag_count(), 3);
    assert_eq!(report.tag_list(), vec![b("needless_return"), b("identity_op"), b("len_zero")]);
    assert_eq!(report.occurrences(b"needless_return"), vec![at(7, 5), at(3, 1), at(7, 5)]);
    assert_eq!(report.occurrences(b"identity_op"), vec![at(142, 13), at(143, 13)]);
    assert_eq!(report.occurrences(b"len_zero"), vec![at(55, 8)]);
    assert!(report.occurrences(b"float_cmp").is_empty());
    assert!(report.contains(b"len_zero"));
    assert!(!report.contains(b"len_zer"));
    assert!(!report.contains(b""));
}

#[test]
fn from_diagnostics_is_recording_one_by_one() {
    let found = vec![
        Diagnostic { tag: b("b"), at: at(1, 1) },
        Diagnostic { tag: b("a"), at: at(2, 2) },
        Diagnostic { tag: b("b"), at: at(3, 3) },
    ];
    let built = ViolationReport::from_diagnostics(&found);

    let mut recorded = ViolationReport::new();
    for d in &found {
        recorded.record(d.tag.clone(), d.at);
    }
    assert_eq!(built, recorded);
    assert_eq!(built.tag_list(), vec![b("b"), b("a")]);
    assert_eq!(built.occurrences(b"b"), vec![at(1, 1), at(3, 3)]);
    assert_eq!(built.occurrences(b"a"), vec![at(2, 2)]);
}

#[test]
fn from_no_diagnostics_is_the_empty_report() {
    assert_eq!(ViolationReport::from_diagnostics(&Vec::new()), ViolationReport::new());
}

#[test]
fn no_tag_is_listed_twice_and_none_is_without_a_place() {
    let tags = ["x", "y", "x", "z", "y", "x", "x", "w"];
    let mut report = ViolationReport::new();
    for (i, t) in tags.iter().enumerate() {
        report.record(b(t), at(i as u32, 0));
    }
    let list = report.tag_list();
    assert_eq!(list, vec![b("x"), b("y"), b("z"), b("w")]);
    let mut total = 0;
    for t in &list {
        let places = report.occurrences(t);
        assert!(!places.is_empty());
        total += places.len();
    }
    assert_eq!(total, tags.len());
}
