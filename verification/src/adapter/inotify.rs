//! Decoding of inotify event records and watch-descriptor bookkeeping.
//!
//! The kernel hands back a byte buffer of variable-length records: a
//! 16-byte header (watch descriptor, mask, cookie, name length) followed
//! by that many name bytes, NUL-padded. Records are decoded here; the
//! watch-descriptor-to-path map decides each event's full path and is
//! kept in step with directory creations and destructions.

use crate::adapter::bytes_to_string;
use crate::adapter::c_name;
use crate::adapter::copy_range;
use crate::adapter::lossy_utf8;
use crate::adapter::spec_c_name;
use crate::adapter::spec_u32_le;
use crate::adapter::u32_le_at;
use crate::event::str_eq;
use crate::event::Event;
use crate::event::Kind;
use crate::event::What;
use vstd::prelude::*;
use vstd::string::StringExecFns;

verus! {

/// inotify mask bit: an object was created in a watched directory.
pub const IN_CREATE: u32 = 0x00000100;

/// inotify mask bit: a watched object was modified.
pub const IN_MODIFY: u32 = 0x00000002;

/// inotify mask bit: an object was deleted from a watched directory.
pub const IN_DELETE: u32 = 0x00000200;

/// inotify mask bit: the object of the event is a directory.
pub const IN_ISDIR: u32 = 0x40000000;

/// inotify mask bit: the kernel's event queue overflowed.
pub const IN_Q_OVERFLOW: u32 = 0x00004000;

/// inotify mask bit: an object was moved out of a watched directory.
pub const IN_MOVED_FROM: u32 = 0x00000040;

/// inotify mask bit: an object was moved into a watched directory.
pub const IN_MOVED_TO: u32 = 0x00000080;

/// inotify mask bits: either direction of a move.
pub const IN_MOVE: u32 = IN_MOVED_FROM | IN_MOVED_TO;

/// The action an inotify mask denotes: the first match of Create,
/// Destroy, Rename, Modify; anything else is Other.
pub open spec fn spec_what_from_mask(mask: u32) -> What {
    if mask & IN_CREATE != 0 {
        What::Create
    } else if mask & IN_DELETE != 0 {
        What::Destroy
    } else if mask & IN_MOVE != 0 {
        What::Rename
    } else if mask & IN_MODIFY != 0 {
        What::Modify
    } else {
        What::Other
    }
}

/// The action an inotify mask denotes.
pub fn what_from_mask(mask: u32) -> (r: What)
    ensures
        r == spec_what_from_mask(mask),
{
    if mask & IN_CREATE != 0 {
        What::Create
    } else if mask & IN_DELETE != 0 {
        What::Destroy
    } else if mask & IN_MOVE != 0 {
        What::Rename
    } else if mask & IN_MODIFY != 0 {
        What::Modify
    } else {
        What::Other
    }
}

/// The kind an inotify mask denotes: a directory or a file.
pub open spec fn spec_kind_from_mask(mask: u32) -> Kind {
    if mask & IN_ISDIR != 0 {
        Kind::Dir
    } else {
        Kind::File
    }
}

/// The kind an inotify mask denotes.
pub fn kind_from_mask(mask: u32) -> (r: Kind)
    ensures
        r == spec_kind_from_mask(mask),
{
    if mask & IN_ISDIR != 0 {
        Kind::Dir
    } else {
        Kind::File
    }
}

/// One decoded inotify record: the watch descriptor it is about, its
/// mask and rename cookie, and the raw (NUL-padded) name bytes.
pub struct InotifyRecord {
    pub wd: u32,
    pub mask: u32,
    pub cookie: u32,
    pub name: Vec<u8>,
}

/// The mathematical model of an [`InotifyRecord`].
pub struct InotifyRecordV {
    pub wd: u32,
    pub mask: u32,
    pub cookie: u32,
    pub name: Seq<u8>,
}

impl View for InotifyRecord {
    type V = InotifyRecordV;

    open spec fn view(&self) -> InotifyRecordV {
        InotifyRecordV { wd: self.wd, mask: self.mask, cookie: self.cookie, name: self.name@ }
    }
}

/// The record at the head of `b`, whose name length is `len`.
pub open spec fn spec_head_record(b: Seq<u8>, len: u32) -> InotifyRecordV {
    InotifyRecordV {
        wd: spec_u32_le(b.subrange(0, 4)),
        mask: spec_u32_le(b.subrange(4, 8)),
        cookie: spec_u32_le(b.subrange(8, 12)),
        name: b.subrange(16, 16 + len as int),
    }
}

/// The records encoded in a byte sequence: 16-byte headers, each followed
/// by the name length its fourth field gives. Decoding stops at a
/// truncated record.
pub open spec fn spec_parse_inotify(b: Seq<u8>) -> Seq<InotifyRecordV>
    decreases b.len(),
{
    if b.len() < 16 {
        Seq::<InotifyRecordV>::empty()
    } else {
        let len = spec_u32_le(b.subrange(12, 16));
        if b.len() < 16 + len as int {
            Seq::<InotifyRecordV>::empty()
        } else {
            seq![spec_head_record(b, len)] + spec_parse_inotify(b.skip(16 + len as int))
        }
    }
}

/// Decode the records in the first `read_len` bytes of `buf`, advancing
/// over each record by its full variable length.
pub fn parse_inotify_events(buf: &Vec<u8>, read_len: usize) -> (records: Vec<InotifyRecord>)
    requires
        read_len <= buf@.len(),
    ensures
        records@.map_values(|r: InotifyRecord| r@) == spec_parse_inotify(
            buf@.take(read_len as int),
        ),
{
    let ghost full = buf@.take(read_len as int);
    let mut records: Vec<InotifyRecord> = Vec::new();
    let mut off: usize = 0;
    proof {
        assert(full.skip(0) =~= full);
        assert(records@.map_values(|r: InotifyRecord| r@) =~= Seq::<InotifyRecordV>::empty());
    }
    while read_len - off >= 16
        invariant
            off <= read_len <= buf@.len(),
            full == buf@.take(read_len as int),
            spec_parse_inotify(full) == records@.map_values(|r: InotifyRecord| r@)
                + spec_parse_inotify(full.skip(off as int)),
        decreases read_len - off,
    {
        let ghost rem = full.skip(off as int);
        proof {
            assert(rem.len() == read_len - off);
            assert(rem.subrange(12, 16) =~= buf@.subrange(off as int + 12, off as int + 16));
        }
        let len = u32_le_at(buf, off + 12);
        if read_len - off - 16 < len as usize {
            proof {
                assert(spec_parse_inotify(rem) =~= Seq::<InotifyRecordV>::empty());
                assert(records@.map_values(|r: InotifyRecord| r@) + Seq::<
                    InotifyRecordV,
                >::empty() =~= records@.map_values(|r: InotifyRecord| r@));
            }
            return records;
        }
        let name_end = off + 16 + len as usize;
        proof {
            assert(rem.subrange(0, 4) =~= buf@.subrange(off as int, off as int + 4));
            assert(rem.subrange(4, 8) =~= buf@.subrange(off as int + 4, off as int + 8));
            assert(rem.subrange(8, 12) =~= buf@.subrange(off as int + 8, off as int + 12));
            assert(rem.subrange(16, 16 + len as int) =~= buf@.subrange(
                off as int + 16,
                name_end as int,
            ));
        }
        let record = InotifyRecord {
            wd: u32_le_at(buf, off),
            mask: u32_le_at(buf, off + 4),
            cookie: u32_le_at(buf, off + 8),
            name: copy_range(buf, off + 16, name_end),
        };
        let ghost pre = records@.map_values(|r: InotifyRecord| r@);
        proof {
            assert(record@ == spec_head_record(rem, len));
        }
        records.push(record);
        proof {
            assert(records@.map_values(|r: InotifyRecord| r@) =~= pre + seq![
                spec_head_record(rem, len),
            ]);
            assert(rem.skip(16 + len as int) =~= full.skip(name_end as int));
            assert(spec_parse_inotify(rem) == seq![spec_head_record(rem, len)]
                + spec_parse_inotify(full.skip(name_end as int)));
            assert(pre + spec_parse_inotify(rem) =~= (pre + seq![spec_head_record(rem, len)])
                + spec_parse_inotify(full.skip(name_end as int)));
        }
        off = name_end;
    }
    proof {
        assert(full.skip(off as int).len() < 16);
        assert(spec_parse_inotify(full.skip(off as int)) =~= Seq::<InotifyRecordV>::empty());
        assert(records@.map_values(|r: InotifyRecord| r@) + Seq::<InotifyRecordV>::empty()
            =~= records@.map_values(|r: InotifyRecord| r@));
    }
    records
}

/// The map from kernel watch descriptors to the absolute paths of the
/// directories they watch. A directory destruction must find the
/// destroyed directory's own descriptor by its path, so the map supports
/// removal by value as well as lookup by key.
pub struct DirMap {
    entries: Vec<(u32, String)>,
}

/// The map a run of (descriptor, path) entries denotes.
spec fn spec_entries_map(entries: Seq<(u32, String)>) -> Map<u32, Seq<char>> {
    Map::new(
        |wd: u32| exists|i: int| 0 <= i < entries.len() && entries[i].0 == wd,
        |wd: u32|
            {
                let i = choose|i: int| 0 <= i < entries.len() && entries[i].0 == wd;
                entries[i].1@
            },
    )
}

/// No two entries carry the same descriptor.
spec fn spec_unique_wds(entries: Seq<(u32, String)>) -> bool {
    forall|i: int, j: int|
        0 <= i < j < entries.len() ==> (#[trigger] entries[i].0) != (#[trigger] entries[j].0)
}

impl View for DirMap {
    type V = Map<u32, Seq<char>>;

    closed spec fn view(&self) -> Map<u32, Seq<char>> {
        spec_entries_map(self.entries@)
    }
}

proof fn lemma_map_at(entries: Seq<(u32, String)>, i: int)
    requires
        spec_unique_wds(entries),
        0 <= i < entries.len(),
    ensures
        spec_entries_map(entries).contains_key(entries[i].0),
        spec_entries_map(entries)[entries[i].0] == entries[i].1@,
{
    let wd = entries[i].0;
    assert(spec_entries_map(entries).contains_key(wd));
    let j = choose|j: int| 0 <= j < entries.len() && entries[j].0 == wd;
    assert(j == i);
}

proof fn lemma_map_remove(entries: Seq<(u32, String)>, k: int)
    requires
        spec_unique_wds(entries),
        0 <= k < entries.len(),
    ensures
        spec_unique_wds(entries.remove(k)),
        spec_entries_map(entries.remove(k)) == spec_entries_map(entries).remove(entries[k].0),
        forall|j: int|
            0 <= j < entries.remove(k).len() ==> (#[trigger] entries.remove(k)[j].0) != entries[
            k].0,
{
    let w0 = entries[k].0;
    let rest = entries.remove(k);
    assert(rest =~= entries.subrange(0, k) + entries.subrange(k + 1, entries.len() as int));
    assert(forall|j: int| 0 <= j < k ==> rest[j] == entries[j]);
    assert(forall|j: int| k <= j < rest.len() ==> rest[j] == entries[j + 1]);
    assert forall|a: int, b: int|
        0 <= a < b < rest.len() implies (#[trigger] rest[a].0) != (#[trigger] rest[b].0) by {
        let a1 = if a < k {
            a
        } else {
            a + 1
        };
        let b1 = if b < k {
            b
        } else {
            b + 1
        };
        assert(entries[a1].0 != entries[b1].0);
    }
    assert forall|j: int|
        0 <= j < rest.len() implies (#[trigger] rest[j].0) != w0 by {
        let j1 = if j < k {
            j
        } else {
            j + 1
        };
        assert(j1 != k);
        assert(entries[j1].0 != entries[k].0);
    }
    let m1 = spec_entries_map(rest);
    let m2 = spec_entries_map(entries).remove(w0);
    assert forall|wd: u32| #[trigger] m1.contains_key(wd) implies m2.contains_key(wd) && m1[wd]
        == m2[wd] by {
        let i = choose|i: int| 0 <= i < rest.len() && rest[i].0 == wd;
        let i1 = if i < k {
            i
        } else {
            i + 1
        };
        assert(entries[i1].0 == wd);
        assert(wd != w0);
        lemma_map_at(entries, i1);
        lemma_map_at(rest, i);
    }
    assert forall|wd: u32| #[trigger] m2.contains_key(wd) implies m1.contains_key(wd) by {
        let i = choose|i: int| 0 <= i < entries.len() && entries[i].0 == wd;
        assert(wd != w0);
        assert(i != k);
        let i0 = if i < k {
            i
        } else {
            i - 1
        };
        assert(rest[i0].0 == wd);
    }
    assert(m1 =~= m2);
}

proof fn lemma_map_push(entries: Seq<(u32, String)>, wd: u32, path: String)
    requires
        spec_unique_wds(entries),
        forall|i: int| 0 <= i < entries.len() ==> (#[trigger] entries[i].0) != wd,
    ensures
        spec_unique_wds(entries.push((wd, path))),
        spec_entries_map(entries.push((wd, path))) == spec_entries_map(entries).insert(wd, path@),
{
    let ext = entries.push((wd, path));
    assert(ext[entries.len() as int] == (wd, path));
    assert(forall|j: int| 0 <= j < entries.len() ==> ext[j] == entries[j]);
    assert forall|a: int, b: int|
        0 <= a < b < ext.len() implies (#[trigger] ext[a].0) != (#[trigger] ext[b].0) by {
        if b < entries.len() {
            assert(entries[a].0 != entries[b].0);
        } else {
            assert(entries[a].0 != wd);
        }
    }
    let m1 = spec_entries_map(ext);
    let m2 = spec_entries_map(entries).insert(wd, path@);
    assert forall|w: u32| #[trigger] m1.contains_key(w) implies m2.contains_key(w) && m1[w]
        == m2[w] by {
        let i = choose|i: int| 0 <= i < ext.len() && ext[i].0 == w;
        lemma_map_at(ext, i);
        if i < entries.len() {
            assert(entries[i].0 == w);
            assert(w != wd);
            lemma_map_at(entries, i);
        } else {
            assert(w == wd);
            assert(m1[w] == path@);
        }
    }
    assert forall|w: u32| #[trigger] m2.contains_key(w) implies m1.contains_key(w) by {
        if w == wd {
            assert(ext[entries.len() as int].0 == w);
        } else {
            let i = choose|i: int| 0 <= i < entries.len() && entries[i].0 == w;
            assert(ext[i].0 == w);
        }
    }
    assert(m1 =~= m2);
}

impl DirMap {
    /// Each descriptor appears at most once.
    pub closed spec fn inv(&self) -> bool {
        spec_unique_wds(self.entries@)
    }

    /// An empty map.
    pub fn new() -> (m: DirMap)
        ensures
            m@ == Map::<u32, Seq<char>>::empty(),
            m.inv(),
    {
        let m = DirMap { entries: Vec::new() };
        proof {
            assert(m@ =~= Map::<u32, Seq<char>>::empty());
        }
        m
    }

    /// Whether the map holds descriptor `wd`.
    pub fn contains_wd(&self, wd: u32) -> (r: bool)
        ensures
            r == self@.contains_key(wd),
    {
        let n = self.entries.len();
        let mut i: usize = 0;
        while i < n
            invariant
                i <= n,
                n == self.entries.len(),
                forall|j: int| 0 <= j < i ==> (#[trigger] self.entries[j].0) != wd,
            decreases n - i,
        {
            if self.entries[i].0 == wd {
                proof {
                    assert(self.entries[i as int].0 == wd);
                }
                return true;
            }
            i = i + 1;
        }
        proof {
            assert(!self@.contains_key(wd));
        }
        false
    }

    /// Whether the map holds no descriptor.
    pub fn is_empty(&self) -> (r: bool)
        ensures
            r == (self@ == Map::<u32, Seq<char>>::empty()),
    {
        let r = self.entries.len() == 0;
        proof {
            if self.entries@.len() == 0 {
                assert(self@ =~= Map::<u32, Seq<char>>::empty());
            } else {
                assert(self@.contains_key(self.entries@[0].0));
                assert(!Map::<u32, Seq<char>>::empty().contains_key(self.entries@[0].0));
            }
        }
        r
    }

    /// The path descriptor `wd` watches.
    pub fn get(&self, wd: u32) -> (r: Option<&String>)
        requires
            self.inv(),
        ensures
            match r {
                Some(p) => self@.contains_key(wd) && self@[wd] == p@,
                None => !self@.contains_key(wd),
            },
    {
        let n = self.entries.len();
        let mut i: usize = 0;
        while i < n
            invariant
                self.inv(),
                i <= n,
                n == self.entries.len(),
                forall|j: int| 0 <= j < i ==> (#[trigger] self.entries[j].0) != wd,
            decreases n - i,
        {
            if self.entries[i].0 == wd {
                proof {
                    lemma_map_at(self.entries@, i as int);
                }
                return Some(&self.entries[i].1);
            }
            i = i + 1;
        }
        proof {
            assert(!self@.contains_key(wd));
        }
        None
    }

    /// Drop descriptor `wd`, if it is there.
    fn remove_wd(&mut self, wd: u32)
        requires
            old(self).inv(),
        ensures
            final(self).inv(),
            final(self)@ == old(self)@.remove(wd),
            forall|i: int|
                0 <= i < final(self).entries@.len() ==> (#[trigger] final(self).entries@[i].0)
                    != wd,
    {
        let n = self.entries.len();
        let mut i: usize = 0;
        while i < n
            invariant
                i <= n,
                n == self.entries.len(),
                self.entries@ == old(self).entries@,
                self.inv(),
                forall|j: int| 0 <= j < i ==> (#[trigger] self.entries[j].0) != wd,
            decreases n - i,
        {
            if self.entries[i].0 == wd {
                let ghost pre = self.entries@;
                self.entries.remove(i);
                proof {
                    lemma_map_remove(pre, i as int);
                }
                return;
            }
            i = i + 1;
        }
        proof {
            assert(!self@.contains_key(wd));
            assert(self@ =~= self@.remove(wd));
        }
    }

    /// Map descriptor `wd` to `path`, replacing any earlier entry for it.
    pub fn insert(&mut self, wd: u32, path: String)
        requires
            old(self).inv(),
        ensures
            final(self).inv(),
            final(self)@ == old(self)@.insert(wd, path@),
    {
        self.remove_wd(wd);
        let ghost mid = self.entries@;
        self.entries.push((wd, path));
        proof {
            lemma_map_push(mid, wd, path);
            assert(self@ =~= old(self)@.insert(wd, path@));
        }
    }

    /// Drop the entry that watches `path` and hand back its descriptor;
    /// `None` when no entry watches that path, leaving the map unchanged.
    pub fn remove_by_path(&mut self, path: &str) -> (r: Option<u32>)
        requires
            old(self).inv(),
        ensures
            final(self).inv(),
            r matches Some(wd) ==> old(self)@.contains_key(wd) && old(self)@[wd] == path@
                && final(self)@ == old(self)@.remove(wd) && !final(self)@.contains_key(wd),
            r is None ==> final(self)@ == old(self)@ && (forall|wd: u32| #[trigger]
                old(self)@.contains_key(wd) ==> old(self)@[wd] != path@),
    {
        let n = self.entries.len();
        let mut i: usize = 0;
        while i < n
            invariant
                i <= n,
                n == self.entries.len(),
                self.entries@ == old(self).entries@,
                self.inv(),
                forall|j: int| 0 <= j < i ==> (#[trigger] self.entries@[j]).1@ != path@,
            decreases n - i,
        {
            if str_eq(self.entries[i].1.as_str(), path) {
                let wd = self.entries[i].0;
                let ghost pre = self.entries@;
                proof {
                    lemma_map_at(pre, i as int);
                }
                self.entries.remove(i);
                proof {
                    lemma_map_remove(pre, i as int);
                    assert(!self@.contains_key(wd));
                }
                return Some(wd);
            }
            i = i + 1;
        }
        proof {
            assert forall|wd: u32| #[trigger] self@.contains_key(wd) implies self@[wd]
                != path@ by {
                let j = choose|j: int|
                    0 <= j < self.entries@.len() && self.entries@[j].0 == wd;
                lemma_map_at(self.entries@, j);
            }
        }
        None
    }
}

/// The bookkeeping a decoded record asks of the adapter loop.
pub enum FollowUp {
    /// A directory was created: add a watch on this path, then record it
    /// with [`note_watch_added`].
    AddWatch(String),
    /// A watched directory was destroyed: its own descriptor was dropped
    /// from the map; remove the kernel-side watch under it too.
    RemoveWatch(u32),
    /// Nothing to do.
    Nothing,
}

/// The full path an event resolves to: the watched directory's cached
/// path (empty for an unknown descriptor), a slash, and the record's
/// NUL-clipped name, decoded leniently.
pub open spec fn spec_event_path(dirs: Map<u32, Seq<char>>, wd: u32, name: Seq<u8>) -> Seq<char> {
    (if dirs.contains_key(wd) {
        dirs[wd]
    } else {
        Seq::<char>::empty()
    }) + seq!['/'] + lossy_utf8(spec_c_name(name))
}

/// Whether some descriptor in the map watches `path`.
pub open spec fn spec_has_path(dirs: Map<u32, Seq<char>>, path: Seq<char>) -> bool {
    exists|wd: u32| #[trigger] dirs.contains_key(wd) && dirs[wd] == path
}

/// Turn one decoded record into an event and the bookkeeping it implies:
/// a queue-overflow record is ignored; a directory creation asks for a
/// new watch; a directory destruction drops the destroyed directory's
/// own descriptor — the one whose cached path is the event's path — from
/// the map and asks for the kernel-side watch under it to go too.
pub fn handle_record(dirs: &mut DirMap, record: &InotifyRecord, when: u128) -> (r: (
    Option<Event>,
    FollowUp,
))
    requires
        old(dirs).inv(),
    ensures
        final(dirs).inv(),
        record.mask & IN_Q_OVERFLOW != 0 ==> r.0 is None && r.1 is Nothing && final(dirs)@ == old(
            dirs,
        )@,
        record.mask & IN_Q_OVERFLOW == 0 ==> (r.0 matches Some(e) && e@.path == spec_event_path(
            old(dirs)@,
            record.wd,
            record.name@,
        ) && e@.what == spec_what_from_mask(record.mask) && e@.kind == spec_kind_from_mask(
            record.mask,
        ) && e@.when == when),
        r.1 is RemoveWatch <==> record.mask & IN_Q_OVERFLOW == 0 && spec_kind_from_mask(record.mask)
            == Kind::Dir && spec_what_from_mask(record.mask) == What::Destroy && spec_has_path(
            old(dirs)@,
            spec_event_path(old(dirs)@, record.wd, record.name@),
        ),
        r.1 matches FollowUp::RemoveWatch(wd) ==> old(dirs)@.contains_key(wd) && old(dirs)@[wd]
            == spec_event_path(old(dirs)@, record.wd, record.name@) && final(dirs)@ == old(
            dirs,
        )@.remove(wd) && !final(dirs)@.contains_key(wd),
        r.1 is AddWatch <==> record.mask & IN_Q_OVERFLOW == 0 && spec_kind_from_mask(record.mask)
            == Kind::Dir && spec_what_from_mask(record.mask) == What::Create,
        r.1 matches FollowUp::AddWatch(p) ==> p@ == spec_event_path(
            old(dirs)@,
            record.wd,
            record.name@,
        ) && final(dirs)@ == old(dirs)@,
        r.1 is Nothing ==> final(dirs)@ == old(dirs)@,
{
    if record.mask & IN_Q_OVERFLOW != 0 {
        return (None, FollowUp::Nothing);
    }
    let clipped = c_name(&record.name);
    let name_text = bytes_to_string(&clipped);
    let mut path: String = match dirs.get(record.wd) {
        Some(base) => base.clone(),
        None => String::new(),
    };
    path.append("/");
    path.append(name_text.as_str());
    proof {
        reveal_strlit("/");
        assert("/"@ =~= seq!['/']);
        assert(path@ == spec_event_path(dirs@, record.wd, record.name@));
    }
    let kind = kind_from_mask(record.mask);
    let what = what_from_mask(record.mask);
    let event = Event { path: path.clone(), what, kind, when };
    if kind == Kind::Dir && what == What::Create {
        (Some(event), FollowUp::AddWatch(path))
    } else if kind == Kind::Dir && what == What::Destroy {
        match dirs.remove_by_path(path.as_str()) {
            Some(wd) => (Some(event), FollowUp::RemoveWatch(wd)),
            None => (Some(event), FollowUp::Nothing),
        }
    } else {
        (Some(event), FollowUp::Nothing)
    }
}

/// Record that the adapter loop added a kernel-side watch: descriptor
/// `wd` now maps to `path`.
pub fn note_watch_added(dirs: &mut DirMap, wd: u32, path: String)
    requires
        old(dirs).inv(),
    ensures
        final(dirs).inv(),
        final(dirs)@ == old(dirs)@.insert(wd, path@),
        final(dirs)@.contains_key(wd),
{
    dirs.insert(wd, path);
}

} // verus!
