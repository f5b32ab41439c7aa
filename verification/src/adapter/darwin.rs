//! Decoding and deduplication of FSEvents batches.
//!
//! The FSEvents framework coalesces flag bits per batch entry, so the same
//! absolute path can carry a Create or Destroy flag repeatedly. A
//! seen-created-paths set decides which creations and destructions are
//! emitted; Modify and Rename always pass through when emission is allowed.

use crate::event::str_eq;
use crate::event::Event;
use crate::event::EventV;
use crate::event::Kind;
use crate::event::What;
use vstd::prelude::*;
use vstd::seq_lib::*;

verus! {

/// FSEvents flag: the object was created.
pub const CREATE: u32 = 0x00000100;

/// FSEvents flag: the object was removed.
pub const DESTROY: u32 = 0x00000200;

/// FSEvents flag: the object's data was changed.
pub const MODIFY: u32 = 0x00001000;

/// FSEvents flag: the object was renamed.
pub const RENAME: u32 = 0x00000800;

/// FSEvents flag: the object is a regular file.
pub const FILE: u32 = 0x00010000;

/// FSEvents flag: the object is a directory.
pub const DIR: u32 = 0x00020000;

/// FSEvents flag: the object is a symbolic link.
pub const SYM_LINK: u32 = 0x00040000;

/// FSEvents flags marking a hard link (own bit or last-hard-link bit).
pub const HARD_LINK: u32 = 0x00100000 | 0x00200000;

/// The kind an FSEvents flag set denotes, checking bits in the order
/// File, Dir, SymLink, HardLink.
pub open spec fn spec_kind_from(flag: u32) -> Kind {
    if flag & FILE != 0 {
        Kind::File
    } else if flag & DIR != 0 {
        Kind::Dir
    } else if flag & SYM_LINK != 0 {
        Kind::SymLink
    } else if flag & HARD_LINK != 0 {
        Kind::HardLink
    } else {
        Kind::Other
    }
}

/// The kind an FSEvents flag set denotes.
pub fn kind_from(flag: u32) -> (r: Kind)
    ensures
        r == spec_kind_from(flag),
{
    if flag & FILE != 0 {
        Kind::File
    } else if flag & DIR != 0 {
        Kind::Dir
    } else if flag & SYM_LINK != 0 {
        Kind::SymLink
    } else if flag & HARD_LINK != 0 {
        Kind::HardLink
    } else {
        Kind::Other
    }
}

/// The action a single FSEvents flag constant denotes, by exact equality
/// against the four single-flag constants.
pub open spec fn spec_what_from(flag: u32) -> What {
    if flag == CREATE {
        What::Create
    } else if flag == DESTROY {
        What::Destroy
    } else if flag == MODIFY {
        What::Modify
    } else if flag == RENAME {
        What::Rename
    } else {
        What::Other
    }
}

/// The action a single FSEvents flag constant denotes.
pub fn what_from(flag: u32) -> (r: What)
    ensures
        r == spec_what_from(flag),
{
    if flag == CREATE {
        What::Create
    } else if flag == DESTROY {
        What::Destroy
    } else if flag == MODIFY {
        What::Modify
    } else if flag == RENAME {
        What::Rename
    } else {
        What::Other
    }
}

/// The set of absolute paths whose creation has been seen and not yet
/// matched by a destruction.
pub struct PathSet {
    items: Vec<String>,
}

impl View for PathSet {
    type V = Set<Seq<char>>;

    closed spec fn view(&self) -> Set<Seq<char>> {
        Set::new(
            |p: Seq<char>|
                exists|i: int| 0 <= i < self.items.len() && self.items[i]@ == p,
        )
    }
}

impl PathSet {
    /// No two entries hold the same path.
    pub closed spec fn inv(&self) -> bool {
        forall|i: int, j: int|
            0 <= i < j < self.items.len() ==> self.items[i]@ != self.items[j]@
    }

    /// An empty set.
    pub fn new() -> (s: PathSet)
        ensures
            s@ == Set::<Seq<char>>::empty(),
            s.inv(),
    {
        let s = PathSet { items: Vec::new() };
        proof {
            assert(s@ =~= Set::<Seq<char>>::empty());
        }
        s
    }

    /// Whether `p` is in the set.
    pub fn contains(&self, p: &str) -> (r: bool)
        ensures
            r == self@.contains(p@),
    {
        let n = self.items.len();
        let mut i: usize = 0;
        while i < n
            invariant
                i <= n,
                n == self.items.len(),
                forall|j: int| 0 <= j < i ==> self.items[j]@ != p@,
            decreases n - i,
        {
            if str_eq(self.items[i].as_str(), p) {
                proof {
                    assert(self.items[i as int]@ == p@);
                }
                return true;
            }
            i = i + 1;
        }
        proof {
            assert(!self@.contains(p@));
        }
        false
    }

    /// Record `p` as seen; reports whether it was new.
    pub fn insert(&mut self, p: String) -> (r: bool)
        requires
            old(self).inv(),
        ensures
            final(self).inv(),
            final(self)@ == old(self)@.insert(p@),
            r == !old(self)@.contains(p@),
    {
        if self.contains(p.as_str()) {
            proof {
                assert(self@ =~= self@.insert(p@));
            }
            false
        } else {
            self.items.push(p);
            proof {
                let items = self.items@;
                let n = items.len() as int;
                assert forall|q: Seq<char>| #[trigger] self@.contains(q) implies old(
                    self,
                )@.insert(p@).contains(q) by {
                    let i = choose|i: int| 0 <= i < n && items[i]@ == q;
                    if i < n - 1 {
                        assert(old(self)@.contains(q));
                    } else {
                        assert(q == p@);
                    }
                }
                assert forall|q: Seq<char>| old(self)@.insert(p@).contains(q) implies #[trigger] self@.contains(
                    q,
                ) by {
                    if q == p@ {
                        assert(items[n - 1]@ == q);
                    } else {
                        let i = choose|i: int|
                            0 <= i < old(self).items.len() && old(self).items[i]@ == q;
                        assert(items[i]@ == q);
                    }
                }
                assert(self@ =~= old(self)@.insert(p@));
            }
            true
        }
    }

    /// Drop `p` from the set; reports whether it was there.
    pub fn remove(&mut self, p: &str) -> (r: bool)
        requires
            old(self).inv(),
        ensures
            final(self).inv(),
            final(self)@ == old(self)@.remove(p@),
            r == old(self)@.contains(p@),
    {
        let n = self.items.len();
        let mut i: usize = 0;
        while i < n
            invariant
                i <= n,
                n == self.items.len(),
                self.items@ == old(self).items@,
                self.inv(),
                forall|j: int| 0 <= j < i ==> self.items[j]@ != p@,
            decreases n - i,
        {
            if str_eq(self.items[i].as_str(), p) {
                proof {
                    assert(self.items[i as int]@ == p@);
                }
                self.items.remove(i);
                proof {
                    let items = self.items@;
                    let old_items = old(self).items@;
                    let k = i as int;
                    assert(items == old_items.remove(k));
                    assert(items =~= old_items.subrange(0, k) + old_items.subrange(
                        k + 1,
                        old_items.len() as int,
                    ));
                    assert(forall|j: int| 0 <= j < k ==> items[j] == old_items[j]);
                    assert(forall|j: int|
                        k <= j < items.len() ==> items[j] == old_items[j + 1]);
                    assert forall|a: int, b: int|
                        0 <= a < b < items.len() implies items[a]@ != items[b]@ by {
                        let a1 = if a < k {
                            a
                        } else {
                            a + 1
                        };
                        let b1 = if b < k {
                            b
                        } else {
                            b + 1
                        };
                        assert(old_items[a1]@ != old_items[b1]@);
                    }
                    assert forall|q: Seq<char>| #[trigger] self@.contains(q) implies old(
                        self,
                    )@.remove(p@).contains(q) by {
                        let j = choose|j: int| 0 <= j < items.len() && items[j]@ == q;
                        if j < k {
                            assert(old_items[j]@ == q);
                            assert(old_items[j]@ != old_items[k]@);
                        } else {
                            assert(old_items[j + 1]@ == q);
                            assert(old_items[j + 1]@ != old_items[k]@);
                        }
                    }
                    assert forall|q: Seq<char>| old(self)@.remove(p@).contains(q) implies #[trigger] self@.contains(
                        q,
                    ) by {
                        let j = choose|j: int|
                            0 <= j < old_items.len() && old_items[j]@ == q;
                        assert(old_items[k]@ == p@);
                        if j < k {
                            assert(items[j]@ == q);
                        } else {
                            assert(j != k);
                            assert(items[j - 1]@ == q);
                        }
                    }
                    assert(self@ =~= old(self)@.remove(p@));
                }
                return true;
            }
            i = i + 1;
        }
        proof {
            assert(!self@.contains(p@));
            assert(self@ =~= self@.remove(p@));
        }
        false
    }
}

/// Whether the deduplication step lets a batch entry emit events: an
/// unseen path with the Create flag, a seen path with the Destroy flag,
/// or any entry carrying neither flag.
pub open spec fn spec_dedup_allows(seen: Set<Seq<char>>, path: Seq<char>, flags: u32) -> bool {
    if !seen.contains(path) && flags & CREATE != 0 {
        true
    } else if seen.contains(path) && flags & DESTROY != 0 {
        true
    } else {
        flags & CREATE == 0 && flags & DESTROY == 0
    }
}

/// The seen-created-paths set after a batch entry: record a fresh
/// creation, clear a matched destruction, otherwise unchanged.
pub open spec fn spec_dedup_update(seen: Set<Seq<char>>, path: Seq<char>, flags: u32) -> Set<
    Seq<char>,
> {
    if !seen.contains(path) && flags & CREATE != 0 {
        seen.insert(path)
    } else if seen.contains(path) && flags & DESTROY != 0 {
        seen.remove(path)
    } else {
        seen
    }
}

/// The event a batch entry emits for one of its flag bits.
pub open spec fn spec_event_v(path: Seq<char>, what: What, flags: u32, when: u128) -> EventV {
    EventV { path, what, kind: spec_kind_from(flags), when }
}

/// The events one batch entry emits: when the deduplication step allows
/// emission, one event per set flag bit, in the order Create, Destroy,
/// Modify, Rename; otherwise nothing.
pub open spec fn spec_entry_events(
    seen: Set<Seq<char>>,
    path: Seq<char>,
    flags: u32,
    when: u128,
) -> Seq<EventV> {
    if spec_dedup_allows(seen, path, flags) {
        (if flags & CREATE != 0 {
            seq![spec_event_v(path, What::Create, flags, when)]
        } else {
            Seq::<EventV>::empty()
        }) + (if flags & DESTROY != 0 {
            seq![spec_event_v(path, What::Destroy, flags, when)]
        } else {
            Seq::<EventV>::empty()
        }) + (if flags & MODIFY != 0 {
            seq![spec_event_v(path, What::Modify, flags, when)]
        } else {
            Seq::<EventV>::empty()
        }) + (if flags & RENAME != 0 {
            seq![spec_event_v(path, What::Rename, flags, when)]
        } else {
            Seq::<EventV>::empty()
        })
    } else {
        Seq::<EventV>::empty()
    }
}

/// Decode one FSEvents batch entry: update the seen-created-paths set
/// and emit the entry's events.
pub fn process_flags(seen: &mut PathSet, path: &String, flags: u32, when: u128) -> (events: Vec<
    Event,
>)
    requires
        old(seen).inv(),
    ensures
        final(seen).inv(),
        final(seen)@ == spec_dedup_update(old(seen)@, path@, flags),
        events@.map_values(|e: Event| e@) == spec_entry_events(old(seen)@, path@, flags, when),
{
    let mut events: Vec<Event> = Vec::new();
    let was_seen = seen.contains(path.as_str());
    let allowed: bool;
    if !was_seen && flags & CREATE != 0 {
        seen.insert(path.clone());
        allowed = true;
    } else if was_seen && flags & DESTROY != 0 {
        seen.remove(path.as_str());
        allowed = true;
    } else {
        allowed = flags & CREATE == 0 && flags & DESTROY == 0;
    }
    if allowed {
        if flags & CREATE != 0 {
            events.push(
                Event { path: path.clone(), what: What::Create, kind: kind_from(flags), when },
            );
        }
        if flags & DESTROY != 0 {
            events.push(
                Event { path: path.clone(), what: What::Destroy, kind: kind_from(flags), when },
            );
        }
        if flags & MODIFY != 0 {
            events.push(
                Event { path: path.clone(), what: What::Modify, kind: kind_from(flags), when },
            );
        }
        if flags & RENAME != 0 {
            events.push(
                Event { path: path.clone(), what: What::Rename, kind: kind_from(flags), when },
            );
        }
    }
    proof {
        assert(events@.map_values(|e: Event| e@) =~= spec_entry_events(
            old(seen)@,
            path@,
            flags,
            when,
        ));
    }
    events
}

/// The batch entries as mathematical values.
pub open spec fn spec_entries_v(entries: Seq<(String, u32)>) -> Seq<(Seq<char>, u32)> {
    entries.map_values(|e: (String, u32)| (e.0@, e.1))
}

/// The events a whole batch emits, threading the seen-created-paths set
/// through its entries in order.
pub open spec fn spec_batch_events(
    seen: Set<Seq<char>>,
    entries: Seq<(Seq<char>, u32)>,
    when: u128,
) -> Seq<EventV>
    decreases entries.len(),
{
    if entries.len() == 0 {
        Seq::<EventV>::empty()
    } else {
        spec_entry_events(seen, entries[0].0, entries[0].1, when) + spec_batch_events(
            spec_dedup_update(seen, entries[0].0, entries[0].1),
            entries.skip(1),
            when,
        )
    }
}

/// The seen-created-paths set after a whole batch.
pub open spec fn spec_batch_seen(seen: Set<Seq<char>>, entries: Seq<(Seq<char>, u32)>) -> Set<
    Seq<char>,
>
    decreases entries.len(),
{
    if entries.len() == 0 {
        seen
    } else {
        spec_batch_seen(spec_dedup_update(seen, entries[0].0, entries[0].1), entries.skip(1))
    }
}

proof fn lemma_batch_snoc(
    seen: Set<Seq<char>>,
    entries: Seq<(Seq<char>, u32)>,
    e: (Seq<char>, u32),
    when: u128,
)
    ensures
        spec_batch_events(seen, entries.push(e), when) == spec_batch_events(seen, entries, when)
            + spec_entry_events(spec_batch_seen(seen, entries), e.0, e.1, when),
        spec_batch_seen(seen, entries.push(e)) == spec_dedup_update(
            spec_batch_seen(seen, entries),
            e.0,
            e.1,
        ),
    decreases entries.len(),
{
    reveal_with_fuel(spec_batch_events, 3);
    reveal_with_fuel(spec_batch_seen, 3);
    if entries.len() == 0 {
        assert(entries.push(e).skip(1) =~= Seq::<(Seq<char>, u32)>::empty());
        assert(entries.push(e)[0] == e);
        assert(spec_batch_events(seen, entries.push(e), when) =~= spec_entry_events(
            seen,
            e.0,
            e.1,
            when,
        ));
    } else {
        let seen1 = spec_dedup_update(seen, entries[0].0, entries[0].1);
        assert(entries.push(e).skip(1) =~= entries.skip(1).push(e));
        lemma_batch_snoc(seen1, entries.skip(1), e, when);
        assert(spec_batch_events(seen, entries.push(e), when) =~= spec_batch_events(
            seen,
            entries,
            when,
        ) + spec_entry_events(spec_batch_seen(seen, entries), e.0, e.1, when));
    }
}

/// Decode a whole FSEvents batch of (path, flags) entries in order,
/// updating the seen-created-paths set and emitting the batch's events.
pub fn process_batch(seen: &mut PathSet, entries: &Vec<(String, u32)>, when: u128) -> (events: Vec<
    Event,
>)
    requires
        old(seen).inv(),
    ensures
        final(seen).inv(),
        final(seen)@ == spec_batch_seen(old(seen)@, spec_entries_v(entries@)),
        events@.map_values(|e: Event| e@) == spec_batch_events(
            old(seen)@,
            spec_entries_v(entries@),
            when,
        ),
{
    let ghost entries_v = spec_entries_v(entries@);
    let mut events: Vec<Event> = Vec::new();
    let n = entries.len();
    let mut i: usize = 0;
    proof {
        assert(events@.map_values(|e: Event| e@) =~= spec_batch_events(
            old(seen)@,
            entries_v.take(0),
            when,
        ));
    }
    while i < n
        invariant
            i <= n,
            n == entries.len(),
            entries_v == spec_entries_v(entries@),
            entries_v.len() == n,
            seen.inv(),
            seen@ == spec_batch_seen(old(seen)@, entries_v.take(i as int)),
            events@.map_values(|e: Event| e@) == spec_batch_events(
                old(seen)@,
                entries_v.take(i as int),
                when,
            ),
        decreases n - i,
    {
        let ghost pre_events = events@;
        let ghost pre_seen = seen@;
        let entry_events = process_flags(seen, &entries[i].0, entries[i].1, when);
        let mut k: usize = 0;
        let m = entry_events.len();
        let ghost entry_events_v = entry_events@.map_values(|e: Event| e@);
        let mut entry_events = entry_events;
        proof {
            assert(entry_events_v =~= spec_entry_events(
                pre_seen,
                entries_v[i as int].0,
                entries_v[i as int].1,
                when,
            ));
        }
        events.append(&mut entry_events);
        proof {
            lemma_batch_snoc(old(seen)@, entries_v.take(i as int), entries_v[i as int], when);
            assert(entries_v.take(i as int).push(entries_v[i as int]) =~= entries_v.take(
                i as int + 1,
            ));
            assert(events@.map_values(|e: Event| e@) =~= pre_events.map_values(|e: Event| e@)
                + entry_events_v);
        }
        i = i + 1;
    }
    proof {
        assert(entries_v.take(n as int) =~= entries_v);
    }
    events
}

/// How often events for path `p` with the given action occur in a run of
/// emitted events.
pub open spec fn spec_count_what(events: Seq<EventV>, what: What, p: Seq<char>) -> int {
    events.filter(|e: EventV| e.what == what && e.path == p).len() as int
}

/// No batch entry carries both the Create and the Destroy flag.
pub open spec fn spec_no_create_destroy_overlap(entries: Seq<(Seq<char>, u32)>) -> bool {
    forall|i: int|
        0 <= i < entries.len() ==> !((#[trigger] entries[i].1) & CREATE != 0 && entries[i].1
            & DESTROY != 0)
}

/// One if the set holds `p`, else zero.
pub open spec fn spec_ind(seen: Set<Seq<char>>, p: Seq<char>) -> int {
    if seen.contains(p) {
        1
    } else {
        0
    }
}

proof fn lemma_count_singleton(e: EventV, what: What, p: Seq<char>)
    ensures
        spec_count_what(seq![e], what, p) == if e.what == what && e.path == p {
            1int
        } else {
            0int
        },
{
    let pred = |ev: EventV| ev.what == what && ev.path == p;
    let s = seq![e];
    assert(s.drop_last() =~= Seq::<EventV>::empty());
    reveal_with_fuel(Seq::filter, 2);
    assert(Seq::<EventV>::empty().filter(pred) =~= Seq::<EventV>::empty());
}

proof fn lemma_entry_counts(
    seen: Set<Seq<char>>,
    path: Seq<char>,
    flags: u32,
    when: u128,
    p: Seq<char>,
)
    requires
        !(flags & CREATE != 0 && flags & DESTROY != 0),
    ensures
        spec_count_what(spec_entry_events(seen, path, flags, when), What::Create, p)
            - spec_count_what(spec_entry_events(seen, path, flags, when), What::Destroy, p)
            == spec_ind(spec_dedup_update(seen, path, flags), p) - spec_ind(seen, p),
{
    broadcast use Seq::filter_distributes_over_add;

    let evs = spec_entry_events(seen, path, flags, when);
    let c = |ev: EventV| ev.what == What::Create && ev.path == p;
    let d = |ev: EventV| ev.what == What::Destroy && ev.path == p;
    let empty = Seq::<EventV>::empty();
    reveal_with_fuel(Seq::filter, 2);
    assert(empty.filter(c) =~= empty);
    assert(empty.filter(d) =~= empty);
    if spec_dedup_allows(seen, path, flags) {
        let e_cr = if flags & CREATE != 0 {
            seq![spec_event_v(path, What::Create, flags, when)]
        } else {
            empty
        };
        let e_de = if flags & DESTROY != 0 {
            seq![spec_event_v(path, What::Destroy, flags, when)]
        } else {
            empty
        };
        let e_mo = if flags & MODIFY != 0 {
            seq![spec_event_v(path, What::Modify, flags, when)]
        } else {
            empty
        };
        let e_re = if flags & RENAME != 0 {
            seq![spec_event_v(path, What::Rename, flags, when)]
        } else {
            empty
        };
        assert(evs == e_cr + e_de + e_mo + e_re);
        if flags & CREATE != 0 {
            lemma_count_singleton(spec_event_v(path, What::Create, flags, when), What::Create, p);
            lemma_count_singleton(spec_event_v(path, What::Create, flags, when), What::Destroy, p);
        }
        if flags & DESTROY != 0 {
            lemma_count_singleton(spec_event_v(path, What::Destroy, flags, when), What::Create, p);
            lemma_count_singleton(spec_event_v(path, What::Destroy, flags, when), What::Destroy, p);
        }
        if flags & MODIFY != 0 {
            lemma_count_singleton(spec_event_v(path, What::Modify, flags, when), What::Create, p);
            lemma_count_singleton(spec_event_v(path, What::Modify, flags, when), What::Destroy, p);
        }
        if flags & RENAME != 0 {
            lemma_count_singleton(spec_event_v(path, What::Rename, flags, when), What::Create, p);
            lemma_count_singleton(spec_event_v(path, What::Rename, flags, when), What::Destroy, p);
        }
    } else {
        assert(evs == empty);
    }
}

proof fn lemma_batch_counts(
    seen: Set<Seq<char>>,
    entries: Seq<(Seq<char>, u32)>,
    when: u128,
    p: Seq<char>,
)
    requires
        spec_no_create_destroy_overlap(entries),
    ensures
        spec_count_what(spec_batch_events(seen, entries, when), What::Create, p) - spec_count_what(
            spec_batch_events(seen, entries, when),
            What::Destroy,
            p,
        ) == spec_ind(spec_batch_seen(seen, entries), p) - spec_ind(seen, p),
    decreases entries.len(),
{
    broadcast use Seq::filter_distributes_over_add;

    if entries.len() == 0 {
        let empty = Seq::<EventV>::empty();
        let c = |ev: EventV| ev.what == What::Create && ev.path == p;
        let d = |ev: EventV| ev.what == What::Destroy && ev.path == p;
        reveal_with_fuel(Seq::filter, 2);
        assert(empty.filter(c) =~= empty);
        assert(empty.filter(d) =~= empty);
    } else {
        let seen1 = spec_dedup_update(seen, entries[0].0, entries[0].1);
        lemma_entry_counts(seen, entries[0].0, entries[0].1, when, p);
        assert(spec_no_create_destroy_overlap(entries.skip(1))) by {
            assert forall|i: int|
                0 <= i < entries.skip(1).len() implies !((#[trigger] entries.skip(1)[i].1) & CREATE
                != 0 && entries.skip(1)[i].1 & DESTROY != 0) by {
                assert(entries.skip(1)[i] == entries[i + 1]);
            }
        }
        lemma_batch_counts(seen1, entries.skip(1), when, p);
    }
}

/// A creation coalesced onto a path already seen as created is
/// suppressed: such an entry emits nothing at all (when it carries no
/// Destroy flag), so a rapid create-delete yields at most one Create.
pub proof fn lemma_duplicate_create_suppressed(
    seen: Set<Seq<char>>,
    path: Seq<char>,
    flags: u32,
    when: u128,
)
    requires
        seen.contains(path),
        flags & CREATE != 0,
        flags & DESTROY == 0,
    ensures
        spec_entry_events(seen, path, flags, when) == Seq::<EventV>::empty(),
{
    assert(!spec_dedup_allows(seen, path, flags));
}

/// A destruction of a path never seen as created is suppressed: such an
/// entry emits nothing at all (when it carries no Create flag), so a
/// rapid create-delete yields at most one Destroy.
pub proof fn lemma_unseen_destroy_suppressed(
    seen: Set<Seq<char>>,
    path: Seq<char>,
    flags: u32,
    when: u128,
)
    requires
        !seen.contains(path),
        flags & DESTROY != 0,
        flags & CREATE == 0,
    ensures
        spec_entry_events(seen, path, flags, when) == Seq::<EventV>::empty(),
{
    assert(!spec_dedup_allows(seen, path, flags));
}

/// The deduplication property: processed from a fresh (empty)
/// seen-created-paths set, and with no batch entry carrying both the
/// Create and the Destroy flag, the Create events emitted for any path
/// never outnumber the Destroy events emitted for it by more than one —
/// at any point of the batch, i.e. after any prefix of its entries.
pub proof fn lemma_create_destroy_balance(
    entries: Seq<(Seq<char>, u32)>,
    when: u128,
    p: Seq<char>,
    k: int,
)
    requires
        spec_no_create_destroy_overlap(entries),
        0 <= k <= entries.len(),
    ensures
        spec_count_what(
            spec_batch_events(Set::empty(), entries.take(k), when),
            What::Create,
            p,
        ) <= spec_count_what(
            spec_batch_events(Set::empty(), entries.take(k), when),
            What::Destroy,
            p,
        ) + 1,
{
    assert(spec_no_create_destroy_overlap(entries.take(k))) by {
        assert forall|i: int|
            0 <= i < entries.take(k).len() implies !((#[trigger] entries.take(k)[i].1) & CREATE
            != 0 && entries.take(k)[i].1 & DESTROY != 0) by {
            assert(entries.take(k)[i] == entries[i]);
        }
    }
    lemma_batch_counts(Set::empty(), entries.take(k), when, p);
}

} // verus!
