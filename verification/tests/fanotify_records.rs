use std::collections::HashSet;
use wtr::adapter::fanotify::{
    check_and_update, kind_from_mask, markwalk_plan, note_marked, note_unmarked,
    parse_fanotify_events, promote, what_from_mask, MarkAction, WalkNode, FAN_CREATE, FAN_DELETE,
    FAN_NOFD_RAW, FAN_ONDIR, FAN_Q_OVERFLOW,
};
use wtr::event::{Event, Kind, What};

/// Lay out one fanotify record: 24 bytes of metadata, a fid info header,
/// a filesystem id, a file handle of `handle` bytes, and the inline name,
/// padded to an eight-byte boundary.
fn push_record(buf: &mut Vec<u8>, vers: u8, fd: u32, mask: u64, handle: &[u8], name: &[u8]) {
    let payload = 44 + handle.len() + name.len() + 1;
    let event_len = (payload + 7) / 8 * 8;
    buf.extend_from_slice(&(event_len as u32).to_le_bytes());
    buf.push(vers);
    buf.push(0); // reserved
    buf.extend_from_slice(&(event_len as u16).to_le_bytes()); // metadata_len
    buf.extend_from_slice(&mask.to_le_bytes());
    buf.extend_from_slice(&fd.to_le_bytes());
    buf.extend_from_slice(&77u32.to_le_bytes()); // pid
    buf.extend_from_slice(&[2, 0]); // info_type, pad
    buf.extend_from_slice(&(event_len as u16 - 24).to_le_bytes()); // info len
    buf.extend_from_slice(&[0; 8]); // fsid
    buf.extend_from_slice(&(handle.len() as u32).to_le_bytes());
    buf.extend_from_slice(&1u32.to_le_bytes()); // handle_type
    buf.extend_from_slice(handle);
    buf.extend_from_slice(name);
    buf.push(0);
    while buf.len() % 8 != 0 {
        buf.push(0);
    }
}

#[test]
fn masks_decode_to_create_destroy_or_other() {
    assert_eq!(what_from_mask(FAN_CREATE), What::Create);
    assert_eq!(what_from_mask(FAN_DELETE), What::Destroy);
    assert_eq!(what_from_mask(FAN_CREATE | FAN_DELETE), What::Create);
    assert_eq!(what_from_mask(0x2), What::Other);
    assert_eq!(kind_from_mask(FAN_CREATE | FAN_ONDIR), Kind::Dir);
    assert_eq!(kind_from_mask(FAN_CREATE), Kind::File);
}

#[test]
fn records_parse_with_handle_and_clipped_name() {
    let mut buf: Vec<u8> = Vec::new();
    push_record(&mut buf, 3, FAN_NOFD_RAW, FAN_CREATE, &[9, 8, 7, 6, 5, 4, 3, 2], b"x.txt");
    push_record(&mut buf, 3, FAN_NOFD_RAW, FAN_DELETE | FAN_ONDIR, &[1, 1, 1, 1], b"d");
    let read_len = buf.len();
    let records = parse_fanotify_events(&buf, read_len);
    assert_eq!(records.len(), 2);
    assert_eq!(records[0].mask, FAN_CREATE);
    assert_eq!(records[0].fd, FAN_NOFD_RAW);
    assert_eq!(records[0].pid, 77);
    assert_eq!(records[0].handle_type, 1);
    assert_eq!(records[0].handle, vec![9, 8, 7, 6, 5, 4, 3, 2]);
    assert_eq!(records[0].name, b"x.txt".to_vec());
    assert_eq!(records[1].mask, FAN_DELETE | FAN_ONDIR);
    assert_eq!(records[1].handle, vec![1, 1, 1, 1]);
    assert_eq!(records[1].name, b"d".to_vec());
}

#[test]
fn unacceptable_metadata_is_skipped_but_the_batch_goes_on() {
    let mut buf: Vec<u8> = Vec::new();
    push_record(&mut buf, 2, FAN_NOFD_RAW, FAN_CREATE, &[1; 8], b"old-version");
    push_record(&mut buf, 3, 5, FAN_CREATE, &[1; 8], b"carries-an-fd");
    push_record(&mut buf, 3, FAN_NOFD_RAW, FAN_CREATE | FAN_Q_OVERFLOW, &[1; 8], b"overflow");
    push_record(&mut buf, 3, FAN_NOFD_RAW, FAN_CREATE, &[1; 8], b"good");
    let read_len = buf.len();
    let records = parse_fanotify_events(&buf, read_len);
    assert_eq!(records.len(), 1);
    assert_eq!(records[0].name, b"good".to_vec());
}

#[test]
fn misaligned_record_abandons_the_batch() {
    let mut buf: Vec<u8> = Vec::new();
    push_record(&mut buf, 3, FAN_NOFD_RAW, FAN_CREATE, &[1; 8], b"first");
    let second_start = buf.len();
    push_record(&mut buf, 3, FAN_NOFD_RAW, FAN_CREATE, &[1; 8], b"second");
    push_record(&mut buf, 3, FAN_NOFD_RAW, FAN_CREATE, &[1; 8], b"third");
    // corrupt the second record's length into a non-multiple of eight
    buf[second_start..second_start + 4].copy_from_slice(&52u32.to_le_bytes());
    let read_len = buf.len();
    let records = parse_fanotify_events(&buf, read_len);
    assert_eq!(records.len(), 1);
    assert_eq!(records[0].name, b"first".to_vec());
}

#[test]
fn promotion_joins_directory_and_name() {
    let e = promote(FAN_CREATE, Some(String::from("/tmp/w")), &b"a.txt".to_vec(), 11).unwrap();
    assert_eq!(e.path, "/tmp/w/a.txt");
    assert_eq!(e.what, What::Create);
    assert_eq!(e.kind, Kind::File);
    assert_eq!(e.when, 11);
}

#[test]
fn promotion_keeps_the_bare_directory_for_dot_and_empty_names() {
    let e = promote(FAN_DELETE | FAN_ONDIR, Some(String::from("/tmp/w/d")), &b".".to_vec(), 1)
        .unwrap();
    assert_eq!(e.path, "/tmp/w/d");
    assert_eq!(e.kind, Kind::Dir);
    assert_eq!(e.what, What::Destroy);
    let e = promote(FAN_CREATE, Some(String::from("/tmp/w")), &Vec::new(), 1).unwrap();
    assert_eq!(e.path, "/tmp/w");
}

#[test]
fn promotion_falls_back_to_the_inline_name_alone() {
    let e = promote(FAN_CREATE, None, &b"a.txt".to_vec(), 2).unwrap();
    assert_eq!(e.path, "a.txt");
    assert!(promote(FAN_CREATE, None, &Vec::new(), 2).is_none());
    assert!(promote(FAN_CREATE, None, &b".".to_vec(), 2).is_none());
}

#[test]
fn directory_events_drive_the_mark_bookkeeping() {
    let created = Some(Event {
        path: String::from("/tmp/w/d"),
        what: What::Create,
        kind: Kind::Dir,
        when: 1,
    });
    match check_and_update(&created) {
        MarkAction::AddMark(p) => assert_eq!(p, "/tmp/w/d"),
        _ => panic!("expected a mark request"),
    }
    let destroyed = Some(Event {
        path: String::from("/tmp/w/d"),
        what: What::Destroy,
        kind: Kind::Dir,
        when: 2,
    });
    match check_and_update(&destroyed) {
        MarkAction::RemoveMark(p) => assert_eq!(p, "/tmp/w/d"),
        _ => panic!("expected an unmark request"),
    }
    let plain_file = Some(Event {
        path: String::from("/tmp/w/a.txt"),
        what: What::Create,
        kind: Kind::File,
        when: 3,
    });
    assert!(matches!(check_and_update(&plain_file), MarkAction::Nothing));
    assert!(matches!(check_and_update(&None), MarkAction::Nothing));
}

#[test]
fn mark_set_records_descriptors() {
    let mut marks: HashSet<i32> = HashSet::new();
    note_marked(&mut marks, 4);
    note_marked(&mut marks, 5);
    assert!(marks.contains(&4));
    note_unmarked(&mut marks, 4);
    assert!(!marks.contains(&4));
    assert!(marks.contains(&5));
}

fn node(ino: u64, children: &[usize]) -> WalkNode {
    WalkNode {
        ino,
        children: children.to_vec(),
    }
}

#[test]
fn walk_terminates_on_a_symlink_cycle_without_duplicate_marks() {
    // two directories whose links form a cycle
    let nodes = vec![node(10, &[1]), node(11, &[0])];
    let order = markwalk_plan(&nodes, 0);
    assert_eq!(order, vec![0, 1]);
    // a diamond through a hard link: one inode reachable twice
    let nodes = vec![node(10, &[1, 2]), node(11, &[3]), node(12, &[3]), node(13, &[])];
    let order = markwalk_plan(&nodes, 0);
    assert_eq!(order, vec![0, 1, 2, 3]);
    // the same inode appearing as two entries is marked once
    let nodes = vec![node(10, &[1, 2]), node(11, &[]), node(11, &[])];
    let order = markwalk_plan(&nodes, 0);
    assert_eq!(order, vec![0, 1]);
}

#[test]
fn walk_visits_breadth_first_from_the_root() {
    let nodes = vec![
        node(1, &[1, 2]),
        node(2, &[3]),
        node(3, &[4]),
        node(4, &[]),
        node(5, &[]),
    ];
    let order = markwalk_plan(&nodes, 0);
    assert_eq!(order, vec![0, 1, 2, 3, 4]);
}

#[test]
fn empty_or_short_buffers_parse_to_no_records() {
    assert!(parse_fanotify_events(&Vec::new(), 0).is_empty());
    let buf = vec![0u8; 16];
    assert_eq!(parse_fanotify_events(&buf, 16).len(), 0);
}
