use tape_git_remote::index::Index;
use tape_git_remote::probe::{validate, Incoherence};

fn index() -> Index {
    let mut index = Index {
        head: Some("refs/heads/main".into()),
        ..Default::default()
    };
    index
        .refs
        .insert("refs/heads/main".into(), "a".repeat(40));
    index
}

#[test]
fn coherent_index() {
    let result = validate(index()).expect("valid").expect("cloneable");
    assert_eq!(result.head, "refs/heads/main");
    assert_eq!(result.refs.len(), 1);
}

#[test]
fn empty_index() {
    assert!(validate(Index::default()).expect("valid").is_none());
}

#[test]
fn dangling_head() {
    let mut index = index();
    index.head = Some("refs/heads/missing".into());
    assert!(validate(index).is_err());
}

#[test]
fn invalid_object_id() {
    let mut index = index();
    index.refs.insert("refs/heads/main".into(), "nope".into());
    assert!(validate(index).is_err());
}

fn message(index: Index) -> String {
    validate(index).expect_err("incoherent").message()
}

// what is said of each fault, the first ref in name order counting
#[test]
fn fault_messages() {
    let mut dangling = index();
    dangling.head = Some("refs/heads/missing".into());
    assert_eq!(
        message(dangling),
        "published Git HEAD points at a missing ref: refs/heads/missing"
    );

    let mut short = index();
    short.refs.insert("refs/heads/z".into(), "b".repeat(39));
    assert_eq!(
        message(short),
        "published Git index contains an invalid object id for refs/heads/z"
    );

    let mut both = index();
    both.refs.insert("refs/heads/z".into(), "b".repeat(39));
    both.refs.insert("elsewhere".into(), "b".repeat(40));
    assert!(matches!(validate(both), Err(Incoherence::InvalidRefName)));
}

// refs without a head are published, but cannot be cloned
#[test]
fn missing_head() {
    let mut tagged = Index::default();
    tagged.refs.insert("refs/tags/v1".into(), "a".repeat(40));
    assert_eq!(message(tagged), "published Git index has refs but no HEAD");
}

// names and ids that are refused, and ids of either case
#[test]
fn ref_rules() {
    for name in ["refs/a\nb", "refs/a\rb", "refs/a\0b", "ref/a", ""] {
        let mut bad = index();
        bad.refs.insert(name.into(), "b".repeat(40));
        assert_eq!(message(bad), "published Git index contains an invalid ref name");
    }
    for id in ["g".repeat(40), "b".repeat(41), "\u{e9}".repeat(20), String::new()] {
        let mut bad = index();
        bad.refs.insert("refs/heads/x".into(), id);
        assert!(matches!(validate(bad), Err(Incoherence::InvalidObjectId(_))));
    }
    let mut mixed = index();
    mixed.refs.insert("refs/heads/x".into(), "0123456789abcdefABCDEF0123456789abcdef01".into());
    let cloneable = validate(mixed).expect("valid").expect("cloneable");
    assert_eq!(cloneable.refs.len(), 2);
    assert_eq!(cloneable.pack_count, 0);
}
