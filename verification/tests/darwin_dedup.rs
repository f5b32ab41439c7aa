use wtr::adapter::darwin::{
    kind_from, process_batch, process_flags, what_from, PathSet, CREATE, DESTROY, DIR, FILE,
    HARD_LINK, MODIFY, RENAME, SYM_LINK,
};
use wtr::event::{Kind, What};

#[test]
fn kind_bits_check_in_order() {
    assert_eq!(kind_from(FILE), Kind::File);
    assert_eq!(kind_from(DIR), Kind::Dir);
    assert_eq!(kind_from(SYM_LINK), Kind::SymLink);
    assert_eq!(kind_from(HARD_LINK), Kind::HardLink);
    // File wins over Dir when both bits are set
    assert_eq!(kind_from(FILE | DIR), Kind::File);
    assert_eq!(kind_from(0), Kind::Other);
}

#[test]
fn what_matches_single_flag_constants_exactly() {
    assert_eq!(what_from(CREATE), What::Create);
    assert_eq!(what_from(DESTROY), What::Destroy);
    assert_eq!(what_from(MODIFY), What::Modify);
    assert_eq!(what_from(RENAME), What::Rename);
    // a combined flag set is not one of the four constants
    assert_eq!(what_from(CREATE | MODIFY), What::Other);
    assert_eq!(what_from(0), What::Other);
}

#[test]
fn fresh_create_is_emitted_once() {
    let mut seen = PathSet::new();
    let path = String::from("/tmp/w/a.txt");
    let first = process_flags(&mut seen, &path, CREATE | FILE, 1);
    assert_eq!(first.len(), 1);
    assert_eq!(first[0].what, What::Create);
    assert_eq!(first[0].kind, Kind::File);
    assert_eq!(first[0].path, "/tmp/w/a.txt");
    assert_eq!(first[0].when, 1);
    // the same creation coalesced into a later batch entry is suppressed
    let second = process_flags(&mut seen, &path, CREATE | FILE, 2);
    assert!(second.is_empty());
}

#[test]
fn destroy_of_unseen_path_is_suppressed() {
    let mut seen = PathSet::new();
    let path = String::from("/tmp/w/ghost");
    let events = process_flags(&mut seen, &path, DESTROY | FILE, 1);
    assert!(events.is_empty());
}

#[test]
fn rapid_create_delete_emits_exactly_one_pair() {
    let mut seen = PathSet::new();
    let path = String::from("/tmp/w/blip");
    let entries = vec![
        (path.clone(), CREATE | FILE),
        (path.clone(), DESTROY | FILE),
        (path.clone(), DESTROY | FILE),
    ];
    let events = process_batch(&mut seen, &entries, 5);
    assert_eq!(events.len(), 2);
    assert_eq!(events[0].what, What::Create);
    assert_eq!(events[1].what, What::Destroy);
}

#[test]
fn modify_and_rename_always_pass_through() {
    let mut seen = PathSet::new();
    let path = String::from("/tmp/w/a.txt");
    let entries = vec![
        (path.clone(), MODIFY | FILE),
        (path.clone(), MODIFY | FILE),
        (path.clone(), MODIFY | RENAME | FILE),
    ];
    let events = process_batch(&mut seen, &entries, 9);
    assert_eq!(events.len(), 4);
    assert_eq!(events[0].what, What::Modify);
    assert_eq!(events[1].what, What::Modify);
    assert_eq!(events[2].what, What::Modify);
    assert_eq!(events[3].what, What::Rename);
}

#[test]
fn allowed_entry_emits_one_event_per_flag_bit_in_order() {
    let mut seen = PathSet::new();
    let path = String::from("/tmp/w/c.txt");
    let events = process_flags(&mut seen, &path, CREATE | MODIFY | RENAME | FILE, 4);
    assert_eq!(events.len(), 3);
    assert_eq!(events[0].what, What::Create);
    assert_eq!(events[1].what, What::Modify);
    assert_eq!(events[2].what, What::Rename);
    for e in &events {
        assert_eq!(e.kind, Kind::File);
        assert_eq!(e.path, "/tmp/w/c.txt");
        assert_eq!(e.when, 4);
    }
}

#[test]
fn creates_never_outnumber_destroys_by_more_than_one() {
    let mut seen = PathSet::new();
    let path = String::from("/tmp/w/churn");
    let mut entries: Vec<(String, u32)> = Vec::new();
    for _ in 0..6 {
        entries.push((path.clone(), CREATE | FILE));
        entries.push((path.clone(), CREATE | FILE));
        entries.push((path.clone(), DESTROY | FILE));
        entries.push((path.clone(), DESTROY | FILE));
    }
    let events = process_batch(&mut seen, &entries, 1);
    let mut creates: i64 = 0;
    let mut destroys: i64 = 0;
    for e in &events {
        if e.what == What::Create {
            creates += 1;
        }
        if e.what == What::Destroy {
            destroys += 1;
        }
        assert!(creates <= destroys + 1);
    }
    assert_eq!(creates, 6);
    assert_eq!(destroys, 6);
}

#[test]
fn dedup_tracks_paths_independently() {
    let mut seen = PathSet::new();
    let a = String::from("/tmp/w/a");
    let b = String::from("/tmp/w/b");
    let entries = vec![
        (a.clone(), CREATE | FILE),
        (b.clone(), CREATE | FILE),
        (a.clone(), DESTROY | FILE),
        (b.clone(), CREATE | FILE),
    ];
    let events = process_batch(&mut seen, &entries, 2);
    assert_eq!(events.len(), 3);
    assert_eq!((events[0].path.as_str(), events[0].what), ("/tmp/w/a", What::Create));
    assert_eq!((events[1].path.as_str(), events[1].what), ("/tmp/w/b", What::Create));
    assert_eq!((events[2].path.as_str(), events[2].what), ("/tmp/w/a", What::Destroy));
}
