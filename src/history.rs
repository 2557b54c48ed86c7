//! The history store: newest-first entries with distinct texts, a capacity
//! that eviction keeps to unless pins block it, and search.
use vstd::prelude::*;
use crate::entry::{ClipboardEntry, EntryView, Timestamp};
use crate::text::{blank, is_blank, matches_query, query_matches};

verus! {

/// Capacity of a new history.
pub const DEFAULT_MAX_ENTRIES: usize = 50;

/// Some entry holds exactly this text.
pub open spec fn has_content(v: Seq<EntryView>, c: Seq<char>) -> bool {
    exists|i: int| 0 <= i < v.len() && #[trigger] v[i].content == c
}

/// No two entries hold the same text.
pub open spec fn distinct_contents(v: Seq<EntryView>) -> bool {
    forall|i: int, j: int|
        0 <= i < v.len() && 0 <= j < v.len() && i != j ==> #[trigger] v[i].content
            != #[trigger] v[j].content
}

/// Every entry is pinned.
pub open spec fn all_pinned(v: Seq<EntryView>) -> bool {
    forall|i: int| 0 <= i < v.len() ==> (#[trigger] v[i]).pinned
}

/// Position of the last (oldest) unpinned entry, or -1 where all are pinned.
pub open spec fn last_unpinned(v: Seq<EntryView>) -> int
    decreases v.len(),
{
    if v.len() == 0 {
        -1
    } else if !v.last().pinned {
        v.len() - 1
    } else {
        last_unpinned(v.drop_last())
    }
}

/// Removes the oldest unpinned entry while there are more than `cap`
/// entries and an unpinned one is left.
pub open spec fn evict(v: Seq<EntryView>, cap: nat) -> Seq<EntryView>
    decreases v.len(),
{
    if v.len() <= cap {
        v
    } else {
        let i = last_unpinned(v);
        if 0 <= i < v.len() {
            evict(v.remove(i), cap)
        } else {
            v
        }
    }
}

/// A text is refused when it is blank or already held.
pub open spec fn refuses(v: Seq<EntryView>, c: Seq<char>) -> bool {
    is_blank(c) || has_content(v, c)
}

/// The history after offering it entry `e`: unchanged where the text is
/// refused, else `e` in front of the older entries, from which the oldest
/// unpinned ones are evicted until, with `e`, the capacity is kept. The new
/// entry itself is never evicted.
pub open spec fn added(v: Seq<EntryView>, cap: nat, e: EntryView) -> Seq<EntryView> {
    if refuses(v, e.content) {
        v
    } else {
        seq![e] + evict(v, room_below(cap))
    }
}

/// The number of older entries that fit beside a new one.
pub open spec fn room_below(cap: nat) -> nat {
    if cap >= 1 {
        (cap - 1) as nat
    } else {
        0
    }
}

/// The history with the pin of entry `i` flipped, or unchanged where `i` is
/// out of range.
pub open spec fn pin_toggled(v: Seq<EntryView>, i: int) -> Seq<EntryView> {
    if 0 <= i < v.len() {
        v.update(i, EntryView { pinned: !v[i].pinned, ..v[i] })
    } else {
        v
    }
}

/// The pinned entries, in order.
pub open spec fn pinned_only(v: Seq<EntryView>) -> Seq<EntryView> {
    v.filter(|e: EntryView| e.pinned)
}

/// Keeping the pinned entries of a sequence extended by one entry.
pub proof fn lemma_pinned_only_push(v: Seq<EntryView>, e: EntryView)
    ensures
        pinned_only(v.push(e)) == if e.pinned {
            pinned_only(v).push(e)
        } else {
            pinned_only(v)
        },
{
    v.lemma_filter_push(e, |e: EntryView| e.pinned);
}

/// The positions, in order, of the entries whose text matches `query`.
pub open spec fn matching_positions(v: Seq<EntryView>, query: Seq<char>, r: Seq<usize>) -> bool {
    &&& forall|k: int| 0 <= k < r.len() ==> (#[trigger] r[k]) < v.len()
    &&& forall|k: int, l: int| 0 <= k < l < r.len() ==> r[k] < r[l]
    &&& forall|i: int|
        0 <= i < v.len() ==> (query_matches(#[trigger] v[i].content, query) <==> r.contains(
            i as usize,
        ))
}

/// `last_unpinned` is a position of an unpinned entry after which all are
/// pinned, or -1 exactly when every entry is pinned.
pub proof fn lemma_last_unpinned(v: Seq<EntryView>)
    ensures
        -1 <= last_unpinned(v) < v.len(),
        last_unpinned(v) >= 0 ==> !v[last_unpinned(v)].pinned,
        last_unpinned(v) == -1 ==> all_pinned(v),
        forall|k: int| last_unpinned(v) < k < v.len() ==> (#[trigger] v[k]).pinned,
    decreases v.len(),
{
    if v.len() > 0 && v.last().pinned {
        lemma_last_unpinned(v.drop_last());
        assert forall|k: int| last_unpinned(v) < k < v.len() implies (#[trigger] v[k]).pinned by {
            if k < v.len() - 1 {
                assert(v.drop_last()[k] == v[k]);
            }
        }
        if last_unpinned(v) == -1 {
            assert forall|i: int| 0 <= i < v.len() implies (#[trigger] v[i]).pinned by {
                if i < v.len() - 1 {
                    assert(v.drop_last()[i] == v[i]);
                }
            }
        }
    }
}

/// Removing an entry keeps the texts distinct.
pub proof fn lemma_remove_keeps_distinct(v: Seq<EntryView>, i: int)
    requires
        distinct_contents(v),
        0 <= i < v.len(),
    ensures
        distinct_contents(v.remove(i)),
{
    let w = v.remove(i);
    assert forall|a: int, b: int|
        0 <= a < w.len() && 0 <= b < w.len() && a != b implies #[trigger] w[a].content
        != #[trigger] w[b].content by {
        let a2 = if a < i { a } else { a + 1 };
        let b2 = if b < i { b } else { b + 1 };
        assert(w[a] == v[a2]);
        assert(w[b] == v[b2]);
    }
}

/// Eviction keeps texts distinct, and stops only at or under the capacity or
/// when every entry left is pinned.
pub proof fn lemma_evict(v: Seq<EntryView>, cap: nat)
    ensures
        distinct_contents(v) ==> distinct_contents(evict(v, cap)),
        evict(v, cap).len() <= cap || all_pinned(evict(v, cap)),
        evict(v, cap).len() <= v.len(),
    decreases v.len(),
{
    lemma_last_unpinned(v);
    if v.len() > cap {
        let i = last_unpinned(v);
        if 0 <= i < v.len() {
            if distinct_contents(v) {
                lemma_remove_keeps_distinct(v, i);
            }
            lemma_evict(v.remove(i), cap);
        }
    }
}

/// Offering a blank text leaves the history as it is.
pub proof fn lemma_blank_refused(v: Seq<EntryView>, cap: nat, e: EntryView)
    requires
        is_blank(e.content),
    ensures
        added(v, cap, e) == v,
{
}

/// Every entry left after eviction was there before.
pub proof fn lemma_evict_subset(v: Seq<EntryView>, cap: nat, x: EntryView)
    requires
        evict(v, cap).contains(x),
    ensures
        v.contains(x),
    decreases v.len(),
{
    if v.len() > cap {
        let i = last_unpinned(v);
        if 0 <= i < v.len() {
            let w = v.remove(i);
            lemma_evict_subset(w, cap, x);
            let k = choose|k: int| 0 <= k < w.len() && w[k] == x;
            if k < i {
                assert(v[k] == x);
            } else {
                assert(v[k + 1] == x);
            }
        }
    }
}

/// Eviction leaves a sequence of pinned entries as it is.
pub proof fn lemma_evict_all_pinned(v: Seq<EntryView>, cap: nat)
    requires
        all_pinned(v),
    ensures
        evict(v, cap) == v,
{
    lemma_last_unpinned(v);
    if last_unpinned(v) >= 0 {
        assert(v[last_unpinned(v)].pinned);
    }
}

/// Offering the same text twice gives the history that the first offer
/// gave: the second offer changes nothing.
pub proof fn lemma_add_twice(v: Seq<EntryView>, cap: nat, e1: EntryView, e2: EntryView)
    requires
        e2.content == e1.content,
    ensures
        added(added(v, cap, e1), cap, e2) == added(v, cap, e1),
{
    let w = added(v, cap, e1);
    if !refuses(v, e1.content) {
        assert(w[0].content == e2.content);
        assert(has_content(w, e2.content));
    }
}

/// A new text offered to a history with room for it adds exactly one entry,
/// in front, and evicts nothing.
pub proof fn lemma_add_with_room(v: Seq<EntryView>, cap: nat, e: EntryView)
    requires
        v.len() < cap,
        !refuses(v, e.content),
    ensures
        added(v, cap, e) == seq![e] + v,
        added(v, cap, e).len() == v.len() + 1,
{
}

/// Pins block eviction: a new text offered to a history whose entries are
/// all pinned goes in front of them all, whatever the capacity.
pub proof fn lemma_add_to_pinned(v: Seq<EntryView>, cap: nat, e: EntryView)
    requires
        all_pinned(v),
        !refuses(v, e.content),
    ensures
        added(v, cap, e) == seq![e] + v,
        added(v, cap, e).len() == v.len() + 1,
{
    lemma_evict_all_pinned(v, room_below(cap));
}

/// Eviction never removes a pinned entry.
pub proof fn lemma_evict_keeps_pinned(v: Seq<EntryView>, cap: nat, x: EntryView)
    requires
        v.contains(x),
        x.pinned,
    ensures
        evict(v, cap).contains(x),
    decreases v.len(),
{
    lemma_last_unpinned(v);
    if v.len() > cap {
        let i = last_unpinned(v);
        if 0 <= i < v.len() {
            let k = choose|k: int| 0 <= k < v.len() && v[k] == x;
            let w = v.remove(i);
            if k < i {
                assert(w[k] == x);
            } else {
                assert(w[k - 1] == x);
            }
            lemma_evict_keeps_pinned(w, cap, x);
        }
    }
}

/// Offering an entry keeps every pinned entry, whatever the capacity.
pub proof fn lemma_add_keeps_pinned(v: Seq<EntryView>, cap: nat, e: EntryView, x: EntryView)
    requires
        v.contains(x),
        x.pinned,
    ensures
        added(v, cap, e).contains(x),
{
    if !refuses(v, e.content) {
        lemma_evict_keeps_pinned(v, room_below(cap), x);
        let w = evict(v, room_below(cap));
        let k = choose|k: int| 0 <= k < w.len() && w[k] == x;
        assert((seq![e] + w)[k + 1] == x);
    }
}

/// The entries as mathematical values.
pub open spec fn views(v: Seq<ClipboardEntry>) -> Seq<EntryView> {
    v.map_values(|e: ClipboardEntry| e@)
}

/// The entries whose text no earlier entry holds, in order.
pub open spec fn first_of_each(v: Seq<EntryView>) -> Seq<EntryView>
    decreases v.len(),
{
    if v.len() == 0 {
        v
    } else {
        let d = first_of_each(v.drop_last());
        if has_content(v.drop_last(), v.last().content) {
            d
        } else {
            d.push(v.last())
        }
    }
}

/// A text is held after a push where it was held before or is the pushed one.
pub proof fn lemma_has_content_push(v: Seq<EntryView>, x: EntryView, c: Seq<char>)
    ensures
        has_content(v.push(x), c) <==> (has_content(v, c) || x.content == c),
{
    if has_content(v, c) {
        let k = choose|k: int| 0 <= k < v.len() && v[k].content == c;
        assert(v.push(x)[k] == v[k]);
    }
    if x.content == c {
        assert(v.push(x)[v.len() as int] == x);
    }
    if has_content(v.push(x), c) {
        let k = choose|k: int| 0 <= k < v.push(x).len() && v.push(x)[k].content == c;
        if k < v.len() {
            assert(v[k] == v.push(x)[k]);
        }
    }
}

fn holds_text(entries: &Vec<ClipboardEntry>, content: &String) -> (r: bool)
    ensures
        r == has_content(views(entries@), content@),
{
    let mut i: usize = 0;
    while i < entries.len()
        invariant
            i <= entries@.len(),
            forall|k: int| 0 <= k < i ==> #[trigger] views(entries@)[k].content != content@,
        decreases entries@.len() - i,
    {
        if entries[i].content == *content {
            assert(views(entries@)[i as int].content == content@);
            return true;
        }
        i = i + 1;
    }
    false
}

/// An ordered, capacity-bounded list of clipboard texts, newest first.
pub struct History {
    entries: Vec<ClipboardEntry>,
    max_entries: usize,
}

impl View for History {
    type V = Seq<EntryView>;

    closed spec fn view(&self) -> Seq<EntryView> {
        self.entries@.map_values(|e: ClipboardEntry| e@)
    }
}

impl History {
    /// The capacity as a mathematical value.
    pub closed spec fn cap(&self) -> nat {
        self.max_entries as nat
    }

    /// A positive capacity and distinct texts.
    pub open spec fn wf(&self) -> bool {
        self.cap() >= 1 && distinct_contents(self@)
    }

    /// An empty history of the given capacity.
    pub fn new(max_entries: usize) -> (r: Self)
        requires
            max_entries >= 1,
        ensures
            r.wf(),
            r@ == Seq::<EntryView>::empty(),
            r.cap() == max_entries,
    {
        let r = History { entries: Vec::new(), max_entries };
        assert(r@ =~= Seq::<EntryView>::empty());
        r
    }

    /// The entries, newest first.
    pub fn entries(&self) -> (r: &Vec<ClipboardEntry>)
        ensures
            r@.map_values(|e: ClipboardEntry| e@) == self@,
    {
        &self.entries
    }

    /// The capacity.
    pub fn max_entries(&self) -> (r: usize)
        ensures
            r == self.cap(),
    {
        self.max_entries
    }

    /// The number of entries.
    pub fn len(&self) -> (r: usize)
        ensures
            r == self@.len(),
    {
        self.entries.len()
    }

    fn contains_content(&self, content: &String) -> (r: bool)
        ensures
            r == has_content(self@, content@),
    {
        holds_text(&self.entries, content)
    }

    fn find_last_unpinned(&self) -> (r: Option<usize>)
        ensures
            match r {
                Some(i) => i as int == last_unpinned(self@),
                None => last_unpinned(self@) == -1,
            },
    {
        let mut j: usize = self.entries.len();
        assert(self@.subrange(0, j as int) =~= self@);
        while j > 0
            invariant
                j <= self@.len(),
                self.entries@.len() == self@.len(),
                last_unpinned(self@) == last_unpinned(self@.subrange(0, j as int)),
            decreases j,
        {
            assert(self@.subrange(0, j as int).last() == self@[j - 1]);
            if !self.entries[j - 1].pinned {
                return Some(j - 1);
            }
            assert(self@.subrange(0, j as int).drop_last() =~= self@.subrange(0, j - 1));
            j = j - 1;
        }
        None
    }

    /// Offers `entry` to the history: a blank text or one already held is
    /// refused and nothing changes; otherwise the oldest unpinned older
    /// entries are evicted until the new one fits, and the entry goes in
    /// front. Where pins block eviction the history grows over capacity.
    /// Returns whether the entry was taken.
    pub fn add_entry_at(&mut self, entry: ClipboardEntry) -> (r: bool)
        requires
            old(self).wf(),
        ensures
            final(self).wf(),
            final(self).cap() == old(self).cap(),
            r == !refuses(old(self)@, entry.content@),
            final(self)@ == added(old(self)@, old(self).cap(), entry@),
            r ==> final(self)@.len() > 0 && final(self)@[0] == entry@,
            r ==> final(self)@.len() <= final(self).cap() || all_pinned(
                final(self)@.drop_first(),
            ),
    {
        if blank(entry.content.as_str()) || self.contains_content(&entry.content) {
            return false;
        }
        let ghost room = room_below(self.cap());
        let ghost target = evict(self@, room);
        proof {
            lemma_evict(self@, room);
        }
        let keep = self.max_entries - 1;
        while self.entries.len() > keep
            invariant
                keep == room,
                evict(self@, room) == target,
                self.max_entries == old(self).max_entries,
            ensures
                self@ == target,
            decreases self.entries@.len(),
        {
            match self.find_last_unpinned() {
                Some(i) => {
                    proof {
                        lemma_last_unpinned(self@);
                    }
                    let ghost before = self@;
                    self.entries.remove(i);
                    assert(self@ =~= before.remove(i as int));
                },
                None => {
                    assert(evict(self@, room) == self@);
                    break;
                },
            }
        }
        let ghost w = self@;
        self.entries.insert(0, entry);
        assert(self@ =~= seq![entry@] + w);
        proof {
            let v = self@;
            assert(v.drop_first() =~= w);
            assert forall|a: int, b: int|
                0 <= a < v.len() && 0 <= b < v.len() && a != b implies #[trigger] v[a].content
                != #[trigger] v[b].content by {
                if a == 0 || b == 0 {
                    let k = if a == 0 { b - 1 } else { a - 1 };
                    assert(v[k + 1] == w[k]);
                    assert(w.contains(w[k]));
                    lemma_evict_subset(old(self)@, room, w[k]);
                    let m = choose|m: int| 0 <= m < old(self)@.len() && old(self)@[m] == w[k];
                    assert(old(self)@[m].content != entry@.content);
                } else {
                    assert(w[a - 1] == v[a]);
                    assert(w[b - 1] == v[b]);
                }
            }
        }
        true
    }

    /// Offers `content`, taken now, to the history; see `add_entry_at`.
    pub fn add_entry(&mut self, content: String) -> (r: bool)
        requires
            old(self).wf(),
        ensures
            final(self).wf(),
            final(self).cap() == old(self).cap(),
            r == !refuses(old(self)@, content@),
            exists|t: Timestamp|
                final(self)@ == added(
                    old(self)@,
                    old(self).cap(),
                    EntryView { content: content@, timestamp: t, pinned: false },
                ),
    {
        let entry = ClipboardEntry::new(content);
        let ghost e = entry@;
        let r = self.add_entry_at(entry);
        assert(e == EntryView { content: content@, timestamp: e.timestamp, pinned: false });
        r
    }

    /// Removes the entry at `index`; an index out of range changes nothing.
    /// Returns whether an entry was removed.
    pub fn remove_entry(&mut self, index: usize) -> (r: bool)
        requires
            old(self).wf(),
        ensures
            final(self).wf(),
            final(self).cap() == old(self).cap(),
            r == (index < old(self)@.len()),
            final(self)@ == if r {
                old(self)@.remove(index as int)
            } else {
                old(self)@
            },
    {
        if index < self.entries.len() {
            self.entries.remove(index);
            assert(self@ =~= old(self)@.remove(index as int));
            proof {
                lemma_remove_keeps_distinct(old(self)@, index as int);
            }
            true
        } else {
            false
        }
    }

    /// Flips the pin of the entry at `index`; an index out of range changes
    /// nothing. Returns the new pin, or `None` where nothing changed.
    pub fn toggle_pin(&mut self, index: usize) -> (r: Option<bool>)
        requires
            old(self).wf(),
        ensures
            final(self).wf(),
            final(self).cap() == old(self).cap(),
            final(self)@ == pin_toggled(old(self)@, index as int),
            r == if index < old(self)@.len() {
                Some(!old(self)@[index as int].pinned)
            } else {
                None::<bool>
            },
    {
        if index < self.entries.len() {
            let mut e = self.entries.remove(index);
            e.pinned = !e.pinned;
            let pinned = e.pinned;
            self.entries.insert(index, e);
            assert(self@ =~= pin_toggled(old(self)@, index as int));
            assert forall|a: int, b: int|
                0 <= a < self@.len() && 0 <= b < self@.len() && a != b implies #[trigger] self@[a].content
                != #[trigger] self@[b].content by {
                assert(self@[a].content == old(self)@[a].content);
                assert(self@[b].content == old(self)@[b].content);
            }
            Some(pinned)
        } else {
            None
        }
    }

    /// Removes every unpinned entry and keeps the pinned ones in order.
    pub fn clear_unpinned(&mut self)
        requires
            old(self).wf(),
        ensures
            final(self).wf(),
            final(self).cap() == old(self).cap(),
            final(self)@ == pinned_only(old(self)@),
    {
        let ghost v = self@;
        let ghost mut i: int = 0;
        let mut j: usize = 0;
        assert(self@ =~= pinned_only(v.subrange(0, 0)) + v.subrange(0, v.len() as int));
        while j < self.entries.len()
            invariant
                0 <= i <= v.len(),
                self@ == pinned_only(v.subrange(0, i)) + v.subrange(i, v.len() as int),
                j == pinned_only(v.subrange(0, i)).len(),
                self.entries@.len() == self@.len(),
                self.cap() == old(self).cap(),
                self.cap() >= 1,
                distinct_contents(self@),
            decreases self@.len() - j,
        {
            let ghost before = self@;
            let ghost f = pinned_only(v.subrange(0, i));
            assert(self@[j as int] == v[i]);
            proof {
                lemma_pinned_only_push(v.subrange(0, i), v[i]);
                assert(v.subrange(0, i + 1) =~= v.subrange(0, i).push(v[i]));
            }
            if self.entries[j].pinned {
                assert(pinned_only(v.subrange(0, i + 1)) == f.push(v[i]));
                j = j + 1;
                assert(self@ =~= pinned_only(v.subrange(0, i + 1)) + v.subrange(i + 1, v.len() as int));
            } else {
                assert(pinned_only(v.subrange(0, i + 1)) == f);
                self.entries.remove(j);
                assert(self@ =~= before.remove(j as int));
                proof {
                    lemma_remove_keeps_distinct(before, j as int);
                }
                assert(self@ =~= pinned_only(v.subrange(0, i + 1)) + v.subrange(i + 1, v.len() as int));
            }
            proof {
                i = i + 1;
            }
        }
        assert(v.subrange(0, i) =~= v);
        assert(self@ =~= pinned_only(v));
    }

    /// Sets the capacity; entries over it stay until the next addition.
    pub fn set_capacity(&mut self, max_entries: usize)
        requires
            old(self).wf(),
            max_entries >= 1,
        ensures
            final(self).wf(),
            final(self)@ == old(self)@,
            final(self).cap() == max_entries,
    {
        self.max_entries = max_entries;
    }

    /// The positions, in order, of the entries whose text matches `query`
    /// ignoring case; an empty query matches every entry.
    pub fn filtered_entries(&self, query: &str) -> (r: Vec<usize>)
        ensures
            matching_positions(self@, query@, r@),
    {
        let mut r: Vec<usize> = Vec::new();
        let mut i: usize = 0;
        while i < self.entries.len()
            invariant
                i <= self@.len(),
                self.entries@.len() == self@.len(),
                forall|k: int| 0 <= k < r@.len() ==> (#[trigger] r@[k]) < i,
                forall|k: int, l: int| 0 <= k < l < r@.len() ==> r@[k] < r@[l],
                forall|j: int|
                    0 <= j < i ==> (query_matches(#[trigger] self@[j].content, query@)
                        <==> r@.contains(j as usize)),
            decreases self@.len() - i,
        {
            if matches_query(self.entries[i].content.as_str(), query) {
                let ghost before = r@;
                r.push(i);
                assert forall|j: int|
                    0 <= j < i + 1 implies (query_matches(#[trigger] self@[j].content, query@)
                    <==> r@.contains(j as usize)) by {
                    if j < i {
                        if before.contains(j as usize) {
                            let k = choose|k: int| 0 <= k < before.len() && before[k] == j as usize;
                            assert(r@[k] == j as usize);
                        }
                        if r@.contains(j as usize) {
                            let k = choose|k: int| 0 <= k < r@.len() && r@[k] == j as usize;
                            assert(k < before.len());
                            assert(before[k] == j as usize);
                        }
                    } else {
                        assert(r@[before.len() as int] == i);
                    }
                }
            } else {
                assert forall|j: int|
                    0 <= j < i + 1 implies (query_matches(#[trigger] self@[j].content, query@)
                    <==> r@.contains(j as usize)) by {
                    if j == i && r@.contains(j as usize) {
                        let k = choose|k: int| 0 <= k < r@.len() && r@[k] == j as usize;
                    }
                }
            }
            i = i + 1;
        }
        r
    }

    /// A history of the given capacity holding `entries` as loaded from
    /// storage, in order; where several hold the same text the first of them
    /// is kept. `None` where the capacity is zero.
    pub fn from_entries(entries: Vec<ClipboardEntry>, max_entries: usize) -> (r: Option<Self>)
        ensures
            r is Some <==> max_entries >= 1,
            r matches Some(h) ==> h.wf() && h@ == first_of_each(views(entries@)) && h.cap()
                == max_entries,
    {
        if max_entries == 0 {
            return None;
        }
        let ghost all = views(entries@);
        let mut rest = entries;
        let mut kept: Vec<ClipboardEntry> = Vec::new();
        let ghost mut i: int = 0;
        assert(all.subrange(0, 0) =~= Seq::<EntryView>::empty());
        assert(views(kept@) =~= Seq::<EntryView>::empty());
        assert(views(rest@) =~= all.subrange(0, all.len() as int));
        while rest.len() > 0
            invariant
                0 <= i <= all.len(),
                views(rest@) == all.subrange(i, all.len() as int),
                views(kept@) == first_of_each(all.subrange(0, i)),
                distinct_contents(views(kept@)),
                forall|c: Seq<char>|
                    has_content(views(kept@), c) <==> has_content(all.subrange(0, i), c),
            decreases rest@.len(),
        {
            let ghost old_rest = rest@;
            assert(views(old_rest).len() == old_rest.len());
            assert(views(old_rest)[0] == old_rest[0]@);
            assert(views(old_rest)[0] == all[i]);
            let e = rest.remove(0);
            assert(views(rest@) =~= views(old_rest).drop_first());
            let ghost u = all.subrange(0, i + 1);
            assert(views(rest@) =~= all.subrange(i + 1, all.len() as int));
            assert(e@ == all[i]);
            assert(u.drop_last() =~= all.subrange(0, i));
            assert(u =~= all.subrange(0, i).push(e@));
            let held = holds_text(&kept, &e.content);
            let ghost before = views(kept@);
            if !held {
                kept.push(e);
                assert(views(kept@) =~= before.push(all[i]));
                assert forall|a: int, b: int|
                    0 <= a < views(kept@).len() && 0 <= b < views(kept@).len() && a != b implies
                    #[trigger] views(kept@)[a].content != #[trigger] views(kept@)[b].content by {
                    if a == before.len() {
                        assert(before[b].content == views(kept@)[b].content);
                    } else if b == before.len() {
                        assert(before[a].content == views(kept@)[a].content);
                    }
                }
            }
            proof {
                assert forall|c: Seq<char>|
                    has_content(views(kept@), c) <==> has_content(u, c) by {
                    lemma_has_content_push(all.subrange(0, i), all[i], c);
                    lemma_has_content_push(before, all[i], c);
                }
                i = i + 1;
            }
        }
        assert(all.subrange(0, i) =~= all);
        let r = History { entries: kept, max_entries };
        assert(r@ =~= views(kept@));
        Some(r)
    }
}

} // verus!
