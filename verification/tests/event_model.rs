use wtr::event::{Event, Kind, What};

#[test]
fn what_text_round_trips() {
    let all = [
        What::Rename,
        What::Modify,
        What::Create,
        What::Destroy,
        What::Owner,
        What::Other,
    ];
    for w in all {
        assert_eq!(What::from_text(w.text().as_str()), w);
    }
}

#[test]
fn kind_text_round_trips() {
    let all = [
        Kind::Dir,
        Kind::File,
        Kind::HardLink,
        Kind::SymLink,
        Kind::Watcher,
        Kind::Other,
    ];
    for k in all {
        assert_eq!(Kind::from_text(k.text().as_str()), k);
    }
}

#[test]
fn what_texts_are_snake_names() {
    assert_eq!(What::Rename.text(), "rename");
    assert_eq!(What::Modify.text(), "modify");
    assert_eq!(What::Create.text(), "create");
    assert_eq!(What::Destroy.text(), "destroy");
    assert_eq!(What::Owner.text(), "owner");
    assert_eq!(What::Other.text(), "other");
}

#[test]
fn kind_texts_are_snake_names() {
    assert_eq!(Kind::Dir.text(), "dir");
    assert_eq!(Kind::File.text(), "file");
    assert_eq!(Kind::HardLink.text(), "hard_link");
    assert_eq!(Kind::SymLink.text(), "sym_link");
    assert_eq!(Kind::Watcher.text(), "watcher");
    assert_eq!(Kind::Other.text(), "other");
}

#[test]
fn from_impls_parse_like_from_text() {
    assert_eq!(What::from("rename"), What::Rename);
    assert_eq!(What::from(String::from("destroy")), What::Destroy);
    assert_eq!(Kind::from("sym_link"), Kind::SymLink);
    assert_eq!(Kind::from(String::from("watcher")), Kind::Watcher);
    assert_eq!(What::from("nonsense"), What::Other);
    assert_eq!(Kind::from(String::from("nonsense")), Kind::Other);
}

#[test]
fn unknown_texts_parse_to_other() {
    assert_eq!(What::from_text(""), What::Other);
    assert_eq!(What::from_text("CREATE"), What::Other);
    assert_eq!(What::from_text("made"), What::Other);
    assert_eq!(Kind::from_text(""), Kind::Other);
    assert_eq!(Kind::from_text("directory"), Kind::Other);
}

#[test]
fn sentinel_is_last() {
    let sentinel = Event {
        path: String::from("/tmp/w"),
        what: What::Destroy,
        kind: Kind::Watcher,
        when: 7,
    };
    assert!(sentinel.is_last());
    let plain = Event {
        path: String::from("/tmp/w"),
        what: What::Destroy,
        kind: Kind::File,
        when: 7,
    };
    assert!(!plain.is_last());
    let created = Event {
        path: String::from("/tmp/w"),
        what: What::Create,
        kind: Kind::Watcher,
        when: 7,
    };
    assert!(!created.is_last());
}

#[test]
fn events_are_value_equal_by_all_fields() {
    let a = Event {
        path: String::from("/tmp/w/a.txt"),
        what: What::Create,
        kind: Kind::File,
        when: 1,
    };
    let b = Event {
        path: String::from("/tmp/w/a.txt"),
        what: What::Create,
        kind: Kind::File,
        when: 1,
    };
    assert_eq!(a, b);
    let later = Event { when: 2, ..b.clone() };
    assert!(a != later);
    let moved = Event {
        path: String::from("/tmp/w/b.txt"),
        ..b.clone()
    };
    assert!(a != moved);
}
