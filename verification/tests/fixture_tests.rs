use conformance::fixture::{check_expectation, Fixture, LoadError, MatchMode};

fn b(text: &str) -> Vec<u8> {
    text.as_bytes().to_vec()
}

#[test]
fn expecting_makes_a_fixture() {
    let f = Fixture::expecting(b("s"), b("fn f() {}"), vec![b("a"), b("b")], false).unwrap();
    assert_eq!(f.name(), &b("s"));
    assert_eq!(f.source(), &b("fn f() {}"));
    assert_eq!(f.expected(), &vec![b("a"), b("b")]);
    assert_eq!(f.mode(), MatchMode::Subset);
    assert!(!f.is_clean());
    assert_eq!(f.description(), &None);

    let f = Fixture::expecting(b("s"), b(""), vec![b("a")], true).unwrap();
    assert_eq!(f.mode(), MatchMode::Exact);
}

#[test]
fn no_fixture_expects_nothing_unless_clean() {
    assert_eq!(Fixture::expecting(b("s"), b(""), vec![], false), Err(LoadError::MalformedMetadata));
    assert_eq!(Fixture::expecting(b("s"), b(""), vec![], true), Err(LoadError::MalformedMetadata));
    assert_eq!(
        Fixture::new(b("s"), b(""), vec![], MatchMode::Subset),
        Err(LoadError::MalformedMetadata)
    );
    assert!(Fixture::new(b("s"), b(""), vec![], MatchMode::Clean).is_ok());
}

#[test]
fn a_clean_fixture_expects_no_tag() {
    assert_eq!(
        Fixture::new(b("s"), b(""), vec![b("a")], MatchMode::Clean),
        Err(LoadError::MalformedMetadata)
    );
    let f = Fixture::clean(b("clean-sample"), b("fn main() {}"));
    assert!(f.is_clean());
    assert_eq!(f.mode(), MatchMode::Clean);
    assert!(f.expected().is_empty());
    assert_eq!(f.name(), &b("clean-sample"));
    assert_eq!(f.source(), &b("fn main() {}"));
    assert_eq!(Ok(f), Fixture::new(b("clean-sample"), b("fn main() {}"), vec![], MatchMode::Clean));
}

#[test]
fn expected_tags_are_a_set_of_names() {
    assert_eq!(
        Fixture::expecting(b("s"), b(""), vec![b("a"), b("b"), b("a")], false),
        Err(LoadError::MalformedMetadata)
    );
    assert_eq!(
        Fixture::expecting(b("s"), b(""), vec![b("a"), b("")], false),
        Err(LoadError::MalformedMetadata)
    );
    assert!(Fixture::expecting(b("s"), b(""), vec![b("a"), b("A")], false).is_ok());
}

#[test]
fn check_expectation_says_what_new_accepts() {
    assert!(check_expectation(MatchMode::Subset, &vec![b("a")]));
    assert!(check_expectation(MatchMode::Exact, &vec![b("a"), b("b")]));
    assert!(check_expectation(MatchMode::Clean, &vec![]));
    assert!(!check_expectation(MatchMode::Clean, &vec![b("a")]));
    assert!(!check_expectation(MatchMode::Subset, &vec![]));
    assert!(!check_expectation(MatchMode::Exact, &vec![]));
    assert!(!check_expectation(MatchMode::Exact, &vec![b("a"), b("a")]));
    assert!(!check_expectation(MatchMode::Subset, &vec![b("")]));
}

#[test]
fn described_adds_a_description_only() {
    let f = Fixture::expecting(b("s"), b("src"), vec![b("a")], true).unwrap().described(b("what it is"));
    assert_eq!(f.description(), &Some(b("what it is")));
    assert_eq!(f.name(), &b("s"));
    assert_eq!(f.source(), &b("src"));
    assert_eq!(f.expected(), &vec![b("a")]);
    assert_eq!(f.mode(), MatchMode::Exact);
}
