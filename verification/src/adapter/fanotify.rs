//! Decoding of fanotify event batches, mark bookkeeping, and the
//! inode-deduplicated directory walk that plans recursive marking.
//!
//! A read from the fanotify descriptor yields a run of variable-length
//! records: 24 bytes of metadata, then (with directory-fid and name
//! reporting enabled) a fid info header, a filesystem id, a file handle,
//! and the inline NUL-terminated basename. Records are decoded and
//! validated here; resolving a file handle to a directory path is the
//! caller's, and the resolved pieces come back through [`promote`].

use crate::adapter::bytes_to_string;
use crate::adapter::copy_range;
use crate::adapter::c_name;
use crate::adapter::lossy_utf8;
use crate::adapter::spec_c_name;
use crate::adapter::spec_u16_le;
use crate::adapter::spec_u32_le;
use crate::adapter::spec_u64_le;
use crate::adapter::u16_le_at;
use crate::adapter::u32_le_at;
use crate::adapter::u64_le_at;
use crate::event::Event;
use crate::event::EventV;
use crate::event::Kind;
use crate::event::What;
use std::collections::HashSet;
use vstd::prelude::*;
use vstd::seq_lib::*;
use vstd::string::StringExecFns;

verus! {

broadcast use vstd::std_specs::hash::group_hash_axioms;

/// fanotify mask bit: an object was created in a marked directory.
pub const FAN_CREATE: u64 = 0x0100;

/// fanotify mask bit: an object was deleted from a marked directory.
pub const FAN_DELETE: u64 = 0x0200;

/// fanotify mask bit: the object of the event is a directory.
pub const FAN_ONDIR: u64 = 0x40000000;

/// fanotify mask bit: the kernel's event queue overflowed.
pub const FAN_Q_OVERFLOW: u64 = 0x4000;

/// The raw little-endian bytes of the `fd` field when no file descriptor
/// accompanies the event (the two's complement of libc's `FAN_NOFD`, -1).
pub const FAN_NOFD_RAW: u32 = 0xFFFF_FFFF;

/// The metadata version this decoder understands.
pub const FANOTIFY_METADATA_VERSION: u8 = 3;

/// The size of the fixed metadata header.
pub const FAN_EVENT_METADATA_LEN: usize = 24;

/// The offset of the file-handle bytes within a record: 24 bytes of
/// metadata, a 4-byte info header, an 8-byte filesystem id, and the
/// 8-byte handle header (byte count and type).
pub const FAN_HANDLE_OFF: usize = 44;

/// The action a fanotify mask denotes: Create, else Destroy, else Other.
pub open spec fn spec_what_from_mask(mask: u64) -> What {
    if mask & FAN_CREATE != 0 {
        What::Create
    } else if mask & FAN_DELETE != 0 {
        What::Destroy
    } else {
        What::Other
    }
}

/// The action a fanotify mask denotes.
pub fn what_from_mask(mask: u64) -> (r: What)
    ensures
        r == spec_what_from_mask(mask),
{
    if mask & FAN_CREATE != 0 {
        What::Create
    } else if mask & FAN_DELETE != 0 {
        What::Destroy
    } else {
        What::Other
    }
}

/// The kind a fanotify mask denotes: a directory or a file.
pub open spec fn spec_kind_from_mask(mask: u64) -> Kind {
    if mask & FAN_ONDIR != 0 {
        Kind::Dir
    } else {
        Kind::File
    }
}

/// The kind a fanotify mask denotes.
pub fn kind_from_mask(mask: u64) -> (r: Kind)
    ensures
        r == spec_kind_from_mask(mask),
{
    if mask & FAN_ONDIR != 0 {
        Kind::Dir
    } else {
        Kind::File
    }
}

/// One decoded fanotify record: the metadata fields, the file handle to
/// resolve the event's directory with, and the inline basename.
pub struct FanRecord {
    pub event_len: u32,
    pub vers: u8,
    pub metadata_len: u16,
    pub mask: u64,
    pub fd: u32,
    pub pid: u32,
    pub handle_type: u32,
    pub handle: Vec<u8>,
    pub name: Vec<u8>,
}

/// The mathematical model of a [`FanRecord`].
pub struct FanRecordV {
    pub event_len: u32,
    pub vers: u8,
    pub metadata_len: u16,
    pub mask: u64,
    pub fd: u32,
    pub pid: u32,
    pub handle_type: u32,
    pub handle: Seq<u8>,
    pub name: Seq<u8>,
}

impl View for FanRecord {
    type V = FanRecordV;

    open spec fn view(&self) -> FanRecordV {
        FanRecordV {
            event_len: self.event_len,
            vers: self.vers,
            metadata_len: self.metadata_len,
            mask: self.mask,
            fd: self.fd,
            pid: self.pid,
            handle_type: self.handle_type,
            handle: self.handle@,
            name: self.name@,
        }
    }
}

/// Whether the head of `b` is a readable record: a whole metadata header
/// is present, and its length field is at least the header size, fits in
/// what was read, and keeps the next record aligned to eight bytes.
pub open spec fn spec_readable(b: Seq<u8>) -> bool {
    b.len() >= FAN_EVENT_METADATA_LEN && {
        let el = spec_u32_le(b.subrange(0, 4));
        el >= FAN_EVENT_METADATA_LEN && el <= b.len() && el % 8 == 0
    }
}

/// Whether the head record's metadata is acceptable: it carries no file
/// descriptor, its version matches the compiled one, and the queue did
/// not overflow.
pub open spec fn spec_metadata_ok(b: Seq<u8>) -> bool {
    &&& spec_u32_le(b.subrange(16, 20)) == FAN_NOFD_RAW
    &&& b[4] == FANOTIFY_METADATA_VERSION
    &&& spec_u64_le(b.subrange(8, 16)) & FAN_Q_OVERFLOW == 0
}

/// The record encoded by the `event_len` bytes `rec`: the metadata
/// fields; and when the fid info and its file handle fit, the handle
/// bytes and the NUL-clipped inline name that follows them.
pub open spec fn spec_fan_record(rec: Seq<u8>) -> FanRecordV {
    let hb = if rec.len() >= FAN_HANDLE_OFF {
        spec_u32_le(rec.subrange(36, 40)) as int
    } else {
        0
    };
    let has_handle = rec.len() >= FAN_HANDLE_OFF && FAN_HANDLE_OFF + hb <= rec.len();
    FanRecordV {
        event_len: spec_u32_le(rec.subrange(0, 4)),
        vers: rec[4],
        metadata_len: spec_u16_le(rec.subrange(6, 8)),
        mask: spec_u64_le(rec.subrange(8, 16)),
        fd: spec_u32_le(rec.subrange(16, 20)),
        pid: spec_u32_le(rec.subrange(20, 24)),
        handle_type: if has_handle {
            spec_u32_le(rec.subrange(40, 44))
        } else {
            0
        },
        handle: if has_handle {
            rec.subrange(FAN_HANDLE_OFF as int, FAN_HANDLE_OFF + hb)
        } else {
            Seq::<u8>::empty()
        },
        name: if has_handle {
            spec_c_name(rec.skip(FAN_HANDLE_OFF + hb))
        } else {
            Seq::<u8>::empty()
        },
    }
}

/// The acceptable records encoded in a byte sequence: decoding walks from
/// record to record by each one's length field, skips a record whose
/// metadata is unacceptable, and abandons the batch at the first record
/// that is not readable.
pub open spec fn spec_parse_fanotify(b: Seq<u8>) -> Seq<FanRecordV>
    decreases b.len(),
{
    if !spec_readable(b) {
        Seq::<FanRecordV>::empty()
    } else {
        let el = spec_u32_le(b.subrange(0, 4)) as int;
        let rest = spec_parse_fanotify(b.skip(el));
        if spec_metadata_ok(b) {
            seq![spec_fan_record(b.take(el))] + rest
        } else {
            rest
        }
    }
}

/// Decode the acceptable records in the first `read_len` bytes of `buf`.
pub fn parse_fanotify_events(buf: &Vec<u8>, read_len: usize) -> (records: Vec<FanRecord>)
    requires
        read_len <= buf@.len(),
    ensures
        records@.map_values(|r: FanRecord| r@) == spec_parse_fanotify(buf@.take(read_len as int)),
{
    let ghost full = buf@.take(read_len as int);
    let mut records: Vec<FanRecord> = Vec::new();
    let mut off: usize = 0;
    proof {
        assert(full.skip(0) =~= full);
        assert(records@.map_values(|r: FanRecord| r@) =~= Seq::<FanRecordV>::empty());
    }
    loop
        invariant
            off <= read_len <= buf@.len(),
            full == buf@.take(read_len as int),
            spec_parse_fanotify(full) == records@.map_values(|r: FanRecord| r@)
                + spec_parse_fanotify(full.skip(off as int)),
        ensures
            spec_parse_fanotify(full) == records@.map_values(|r: FanRecord| r@),
        decreases read_len - off,
    {
        let ghost rem = full.skip(off as int);
        proof {
            assert(rem.len() == read_len - off);
        }
        if read_len - off < FAN_EVENT_METADATA_LEN {
            proof {
                assert(!spec_readable(rem));
                assert(records@.map_values(|r: FanRecord| r@) + Seq::<FanRecordV>::empty()
                    =~= records@.map_values(|r: FanRecord| r@));
            }
            break;
        }
        proof {
            assert(rem.subrange(0, 4) =~= buf@.subrange(off as int, off as int + 4));
        }
        let event_len = u32_le_at(buf, off);
        if (event_len as usize) < FAN_EVENT_METADATA_LEN || (event_len as usize) > read_len - off
            || event_len % 8 != 0 {
            proof {
                assert(!spec_readable(rem));
                assert(records@.map_values(|r: FanRecord| r@) + Seq::<FanRecordV>::empty()
                    =~= records@.map_values(|r: FanRecord| r@));
            }
            break;
        }
        let el = event_len as usize;
        let next_off = off + el;
        proof {
            assert(spec_readable(rem));
            assert(rem.subrange(8, 16) =~= buf@.subrange(off as int + 8, off as int + 16));
            assert(rem.subrange(16, 20) =~= buf@.subrange(off as int + 16, off as int + 20));
            assert(rem[4] == buf@[off as int + 4]);
        }
        let mask = u64_le_at(buf, off + 8);
        let fd = u32_le_at(buf, off + 16);
        let vers = buf[off + 4];
        let usable = fd == FAN_NOFD_RAW && vers == FANOTIFY_METADATA_VERSION && mask
            & FAN_Q_OVERFLOW == 0;
        if usable {
            let ghost rec = rem.take(el as int);
            proof {
                assert(spec_metadata_ok(rem));
                assert(rec.subrange(0, 4) =~= buf@.subrange(off as int, off as int + 4));
                assert(rec[4] == buf@[off as int + 4]);
                assert(rec.subrange(6, 8) =~= buf@.subrange(off as int + 6, off as int + 8));
                assert(rec.subrange(8, 16) =~= buf@.subrange(off as int + 8, off as int + 16));
                assert(rec.subrange(16, 20) =~= buf@.subrange(off as int + 16, off as int + 20));
                assert(rec.subrange(20, 24) =~= buf@.subrange(off as int + 20, off as int + 24));
            }
            let metadata_len = u16_le_at(buf, off + 6);
            let pid = u32_le_at(buf, off + 20);
            let mut handle_type: u32 = 0;
            let mut handle: Vec<u8> = Vec::new();
            let mut name: Vec<u8> = Vec::new();
            if el >= FAN_HANDLE_OFF {
                proof {
                    assert(rec.subrange(36, 40) =~= buf@.subrange(
                        off as int + 36,
                        off as int + 40,
                    ));
                }
                let hb = u32_le_at(buf, off + 36);
                if (hb as usize) <= el - FAN_HANDLE_OFF {
                    proof {
                        assert(rec.subrange(40, 44) =~= buf@.subrange(
                            off as int + 40,
                            off as int + 44,
                        ));
                        assert(rec.subrange(
                            FAN_HANDLE_OFF as int,
                            FAN_HANDLE_OFF + hb as int,
                        ) =~= buf@.subrange(
                            off as int + FAN_HANDLE_OFF,
                            off as int + FAN_HANDLE_OFF + hb as int,
                        ));
                    }
                    handle_type = u32_le_at(buf, off + 40);
                    handle = copy_range(buf, off + FAN_HANDLE_OFF, off + FAN_HANDLE_OFF
                        + hb as usize);
                    let tail = copy_range(buf, off + FAN_HANDLE_OFF + hb as usize, off + el);
                    proof {
                        assert(tail@ =~= rec.skip(FAN_HANDLE_OFF + hb as int));
                    }
                    name = c_name(&tail);
                }
            }
            let record = FanRecord {
                event_len,
                vers,
                metadata_len,
                mask,
                fd,
                pid,
                handle_type,
                handle,
                name,
            };
            let ghost pre = records@.map_values(|r: FanRecord| r@);
            proof {
                assert(record@ == spec_fan_record(rec));
            }
            records.push(record);
            proof {
                assert(records@.map_values(|r: FanRecord| r@) =~= pre + seq![spec_fan_record(rec)]);
                assert(rem.skip(el as int) =~= full.skip(next_off as int));
                assert(pre + spec_parse_fanotify(rem) =~= (pre + seq![spec_fan_record(rec)])
                    + spec_parse_fanotify(full.skip(next_off as int)));
            }
        } else {
            proof {
                assert(!spec_metadata_ok(rem));
                assert(rem.skip(el as int) =~= full.skip(next_off as int));
            }
        }
        off = next_off;
    }
    records
}

/// The view of an optional resolved directory path.
pub open spec fn spec_opt_path(dir: &Option<String>) -> Option<Seq<char>> {
    match dir {
        Some(d) => Some(d@),
        None => None,
    }
}

/// Whether an inline name takes part in the event's path: it is nonempty
/// and not the current-directory entry ".".
pub open spec fn spec_name_counts(name: Seq<u8>) -> bool {
    name.len() > 0 && !(name.len() == 1 && name[0] == 46)
}

/// The event a decoded record promotes to, given the directory path the
/// caller resolved from its file handle (when resolution succeeded) and
/// the record's inline name. With a directory, the name (when it counts)
/// is appended after a slash. Without one, the name alone is the
/// best-effort path, and an event with no usable name is dropped.
pub open spec fn spec_promote(
    mask: u64,
    dir: Option<Seq<char>>,
    name: Seq<u8>,
    when: u128,
) -> Option<EventV> {
    let what = spec_what_from_mask(mask);
    let kind = spec_kind_from_mask(mask);
    match dir {
        Some(d) => Some(
            EventV {
                path: if spec_name_counts(name) {
                    d + seq!['/'] + lossy_utf8(name)
                } else {
                    d
                },
                what,
                kind,
                when,
            },
        ),
        None => if spec_name_counts(name) {
            Some(EventV { path: lossy_utf8(name), what, kind, when })
        } else {
            None
        },
    }
}

/// Promote a decoded record to an event.
pub fn promote(mask: u64, dir: Option<String>, name: &Vec<u8>, when: u128) -> (r: Option<Event>)
    ensures
        match r {
            Some(e) => spec_promote(mask, spec_opt_path(&dir), name@, when) == Some(e@),
            None => spec_promote(mask, spec_opt_path(&dir), name@, when) is None,
        },
{
    let what = what_from_mask(mask);
    let kind = kind_from_mask(mask);
    let name_counts = name.len() > 0 && !(name.len() == 1 && name[0] == 46);
    match dir {
        Some(d) => {
            let mut path = d;
            if name_counts {
                let name_text = bytes_to_string(name);
                path.append("/");
                path.append(name_text.as_str());
                proof {
                    reveal_strlit("/");
                    assert("/"@ =~= seq!['/']);
                }
            }
            Some(Event { path, what, kind, when })
        },
        None => {
            if name_counts {
                let path = bytes_to_string(name);
                Some(Event { path, what, kind, when })
            } else {
                None
            }
        },
    }
}

/// The set of descriptors under which directories were marked.
pub type MarkSet = HashSet<i32>;

/// The mark bookkeeping an event asks of the adapter loop.
pub enum MarkAction {
    /// A directory was created: mark it, then record the returned
    /// descriptor with [`note_marked`].
    AddMark(String),
    /// A marked directory was destroyed: unmark it, then record the
    /// returned descriptor with [`note_unmarked`].
    RemoveMark(String),
    /// Nothing to do.
    Nothing,
}

/// The mark bookkeeping a freshly promoted event implies: a directory
/// creation marks the new directory, a directory destruction unmarks it,
/// anything else leaves the marks alone.
pub fn check_and_update(maybe_event: &Option<Event>) -> (r: MarkAction)
    ensures
        r is AddMark <==> (maybe_event matches Some(e) && e.kind == Kind::Dir && e.what
            == What::Create),
        r is RemoveMark <==> (maybe_event matches Some(e) && e.kind == Kind::Dir && e.what
            == What::Destroy),
        r matches MarkAction::AddMark(p) ==> (maybe_event matches Some(e) && p@ == e@.path),
        r matches MarkAction::RemoveMark(p) ==> (maybe_event matches Some(e) && p@ == e@.path),
{
    match maybe_event {
        Some(event) => {
            if event.kind == Kind::Dir && event.what == What::Create {
                MarkAction::AddMark(event.path.clone())
            } else if event.kind == Kind::Dir && event.what == What::Destroy {
                MarkAction::RemoveMark(event.path.clone())
            } else {
                MarkAction::Nothing
            }
        },
        None => MarkAction::Nothing,
    }
}

/// Record that the adapter loop marked a directory under descriptor `wd`.
pub fn note_marked(marks: &mut MarkSet, wd: i32)
    ensures
        final(marks)@ == old(marks)@.insert(wd),
        final(marks)@.contains(wd),
{
    marks.insert(wd);
}

/// Record that the adapter loop removed the mark under descriptor `wd`.
pub fn note_unmarked(marks: &mut MarkSet, wd: i32)
    ensures
        final(marks)@ == old(marks)@.remove(wd),
        !final(marks)@.contains(wd),
{
    marks.remove(&wd);
}

/// Whether the walk should mark a directory it just met: only when its
/// inode was not seen before, which it is from now on. Deduplicating by
/// inode keeps a cycle through symbolic links from being marked twice.
pub fn should_mark(seen: &mut HashSet<u64>, ino: u64) -> (r: bool)
    ensures
        r == !old(seen)@.contains(ino),
        final(seen)@ == old(seen)@.insert(ino),
{
    seen.insert(ino)
}

/// One directory met during the recursive walk: its inode number and the
/// positions of its child directories in the snapshot.
pub struct WalkNode {
    pub ino: u64,
    pub children: Vec<usize>,
}

/// Every child index points into the snapshot.
pub open spec fn spec_children_in_range(nodes: Seq<WalkNode>) -> bool {
    forall|i: int, j: int|
        0 <= i < nodes.len() && 0 <= j < nodes[i].children@.len() ==> (
        #[trigger] nodes[i].children@[j]) < nodes.len()
}

/// Plan the recursive marking of a directory tree snapshot, walking
/// breadth-first from `root` and deduplicating by inode number, so that
/// a cycle through symbolic links neither repeats a mark nor keeps the
/// walk from terminating: the plan lists each inode at most once, covers
/// every child of every planned directory (by inode), and the walk
/// provably ends.
pub fn markwalk_plan(nodes: &Vec<WalkNode>, root: usize) -> (order: Vec<usize>)
    requires
        root < nodes@.len(),
        spec_children_in_range(nodes@),
    ensures
        forall|a: int|
            0 <= a < order@.len() ==> (#[trigger] order@[a]) < nodes@.len(),
        forall|a: int, b: int|
            0 <= a < b < order@.len() ==> nodes@[order@[a] as int].ino != nodes@[order@[b] as int].ino,
        order@.len() >= 1 && order@[0] == root,
        forall|a: int, j: int|
            0 <= a < order@.len() && 0 <= j < nodes@[order@[a] as int].children@.len()
                ==> exists|k: int|
                0 <= k < order@.len() && nodes@[order@[k] as int].ino == nodes@[(
                #[trigger] nodes@[order@[a] as int].children@[j]) as int].ino,
{
    let ghost ino_seq = nodes@.map_values(|nd: WalkNode| nd.ino);
    let mut seen: HashSet<u64> = HashSet::new();
    let mut order: Vec<usize> = Vec::new();
    let mut queue: Vec<usize> = Vec::new();
    let mut head: usize = 0;
    seen.insert(nodes[root].ino);
    order.push(root);
    queue.push(root);
    proof {
        assert(ino_seq[root as int] == nodes@[root as int].ino);
        assert(ino_seq.to_set().contains(nodes@[root as int].ino));
        assert(seen@.subset_of(ino_seq.to_set()));
        seq_to_set_is_finite(ino_seq);
        vstd::set_lib::lemma_len_subset(seen@, ino_seq.to_set());
        ino_seq.lemma_cardinality_of_set();
        assert forall|x: u64| #[trigger] seen@.contains(x) implies exists|k: int|
            0 <= k < order@.len() && nodes@[order@[k] as int].ino == x by {
            assert(x == nodes@[root as int].ino);
            assert(order@[0] == root);
        }
    }
    while head < queue.len()
        invariant
            nodes@.len() > 0,
            ino_seq == nodes@.map_values(|nd: WalkNode| nd.ino),
            spec_children_in_range(nodes@),
            head <= queue@.len(),
            queue@ == order@,
            forall|a: int| 0 <= a < order@.len() ==> (#[trigger] order@[a]) < nodes@.len(),
            forall|a: int|
                0 <= a < order@.len() ==> seen@.contains(nodes@[#[trigger] order@[a] as int].ino),
            forall|a: int, b: int|
                0 <= a < b < order@.len() ==> nodes@[order@[a] as int].ino != nodes@[order@[
                b] as int].ino,
            forall|x: u64| #[trigger]
                seen@.contains(x) ==> exists|k: int|
                    0 <= k < order@.len() && nodes@[order@[k] as int].ino == x,
            forall|a: int, j: int|
                0 <= a < head && 0 <= j < nodes@[order@[a] as int].children@.len()
                    ==> seen@.contains(
                    nodes@[(#[trigger] nodes@[order@[a] as int].children@[j]) as int].ino,
                ),
            seen@.subset_of(ino_seq.to_set()),
            seen@.finite(),
            seen@.len() <= nodes@.len(),
            order@.len() >= 1 && order@[0] == root,
        decreases nodes@.len() - seen@.len(), queue@.len() - head,
    {
        let cur = queue[head];
        let ghost seen0 = seen@;
        let ghost q0 = queue@;
        let nchild = nodes[cur].children.len();
        let mut c: usize = 0;
        while c < nchild
            invariant
                nodes@.len() > 0,
                ino_seq == nodes@.map_values(|nd: WalkNode| nd.ino),
                spec_children_in_range(nodes@),
                cur < nodes@.len(),
                head < queue@.len(),
                cur == queue@[head as int],
                nchild == nodes@[cur as int].children@.len(),
                c <= nchild,
                queue@ == order@,
                forall|a: int| 0 <= a < order@.len() ==> (#[trigger] order@[a]) < nodes@.len(),
                forall|a: int|
                    0 <= a < order@.len() ==> seen@.contains(
                        nodes@[#[trigger] order@[a] as int].ino,
                    ),
                forall|a: int, b: int|
                    0 <= a < b < order@.len() ==> nodes@[order@[a] as int].ino != nodes@[order@[
                    b] as int].ino,
                forall|x: u64| #[trigger]
                    seen@.contains(x) ==> exists|k: int|
                        0 <= k < order@.len() && nodes@[order@[k] as int].ino == x,
                forall|a: int, j: int|
                    0 <= a < head && 0 <= j < nodes@[order@[a] as int].children@.len()
                        ==> seen@.contains(
                        nodes@[(#[trigger] nodes@[order@[a] as int].children@[j]) as int].ino,
                    ),
                forall|j: int|
                    0 <= j < c ==> seen@.contains(
                        nodes@[(#[trigger] nodes@[cur as int].children@[j]) as int].ino,
                    ),
                seen@.subset_of(ino_seq.to_set()),
                seen@.finite(),
                seen@.len() <= nodes@.len(),
                order@.len() >= 1 && order@[0] == root,
                seen0.subset_of(seen@),
                seen@ == seen0 || seen@.len() > seen0.len(),
                seen@ == seen0 ==> queue@ == q0,
            decreases nchild - c,
        {
            let child = nodes[cur].children[c];
            let ino = nodes[child].ino;
            if !seen.contains(&ino) {
                let ghost seen_pre = seen@;
                let ghost order_pre = order@;
                seen.insert(ino);
                order.push(child);
                queue.push(child);
                proof {
                    assert(ino_seq[child as int] == ino);
                    assert(ino_seq.to_set().contains(ino));
                    assert(seen@.subset_of(ino_seq.to_set()));
                    seq_to_set_is_finite(ino_seq);
                    vstd::set_lib::lemma_len_subset(seen@, ino_seq.to_set());
                    ino_seq.lemma_cardinality_of_set();
                    assert(seen@.len() == seen_pre.len() + 1);
                    assert forall|x: u64| #[trigger] seen@.contains(x) implies exists|k: int|
                        0 <= k < order@.len() && nodes@[order@[k] as int].ino == x by {
                        if x == ino {
                            assert(order@[order@.len() - 1] == child);
                            assert(nodes@[order@[order@.len() - 1] as int].ino == x);
                        } else {
                            assert(seen_pre.contains(x));
                            let k = choose|k: int|
                                0 <= k < order_pre.len() && nodes@[order_pre[k] as int].ino == x;
                            assert(order@[k] == order_pre[k]);
                        }
                    }
                }
            }
            c = c + 1;
        }
        head = head + 1;
        proof {
            assert forall|a: int, j: int|
                0 <= a < head && 0 <= j < nodes@[order@[a] as int].children@.len() implies seen@.contains(
                nodes@[(#[trigger] nodes@[order@[a] as int].children@[j]) as int].ino,
            ) by {
                if a == head - 1 {
                    assert(order@[a] == cur);
                }
            }
        }
    }
    proof {
        assert(head == order@.len());
        assert forall|a: int, j: int|
            0 <= a < order@.len() && 0 <= j < nodes@[order@[a] as int].children@.len() implies exists|
            k: int,
        |
            0 <= k < order@.len() && nodes@[order@[k] as int].ino == nodes@[(
            #[trigger] nodes@[order@[a] as int].children@[j]) as int].ino by {
            assert(seen@.contains(nodes@[nodes@[order@[a] as int].children@[j] as int].ino));
        }
    }
    order
}

} // verus!
