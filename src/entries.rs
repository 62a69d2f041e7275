//! The owning collection of audio objects, keyed by identifier and kept in
//! insertion order.
use vstd::prelude::*;
use crate::entry::{Entry, EntryIdentifier, EntryType, PlayEntry, PEAK_EPSILON};

verus! {

/// The records of `s` that satisfy `f`, in order.
pub open spec fn keep(s: Seq<(EntryIdentifier, Entry)>, f: spec_fn((EntryIdentifier, Entry)) -> bool) -> Seq<
    (EntryIdentifier, Entry),
>
    decreases s.len(),
{
    if s.len() == 0 {
        seq![]
    } else if f(s.last()) {
        keep(s.drop_last(), f).push(s.last())
    } else {
        keep(s.drop_last(), f)
    }
}

/// The records of `s` whose identifier has kind `t`, in order.
pub open spec fn of_type(s: Seq<(EntryIdentifier, Entry)>, t: EntryType) -> Seq<
    (EntryIdentifier, Entry),
> {
    keep(s, |x: (EntryIdentifier, Entry)| x.0.entry_type == t)
}

/// `s` without the record keyed by `id`.
pub open spec fn without(s: Seq<(EntryIdentifier, Entry)>, id: EntryIdentifier) -> Seq<(EntryIdentifier, Entry)> {
    keep(s, other_key(id))
}

/// Holds of the records not keyed by `id`.
pub open spec fn other_key(id: EntryIdentifier) -> spec_fn((EntryIdentifier, Entry)) -> bool {
    |x: (EntryIdentifier, Entry)| x.0 != id
}

/// Position of the record keyed by `id` in `s`.
pub open spec fn key_pos(s: Seq<(EntryIdentifier, Entry)>, id: EntryIdentifier) -> int {
    choose|i: int| 0 <= i < s.len() && #[trigger] s[i].0 == id
}

/// `s` with the record keyed by `id` set to `e`: replaced in place if
/// there is one, appended otherwise.
pub open spec fn upsert(s: Seq<(EntryIdentifier, Entry)>, id: EntryIdentifier, e: Entry) -> Seq<(EntryIdentifier, Entry)> {
    if has_key(s, id) {
        s.update(key_pos(s, id), (id, e))
    } else {
        s.push((id, e))
    }
}

/// `s` holds a record keyed by `id`.
pub open spec fn has_key(s: Seq<(EntryIdentifier, Entry)>, id: EntryIdentifier) -> bool {
    exists|i: int| 0 <= i < s.len() && #[trigger] s[i].0 == id
}

/// No two records of `s` share an identifier.
pub open spec fn keys_unique(s: Seq<(EntryIdentifier, Entry)>) -> bool {
    forall|i: int, j: int| 0 <= i < s.len() && 0 <= j < s.len() && i != j ==> s[i].0 != s[j].0
}

/// The record keyed by `id` in `s`, if any.
pub open spec fn lookup(s: Seq<(EntryIdentifier, Entry)>, id: EntryIdentifier) -> Option<Entry> {
    if has_key(s, id) {
        Some(s[choose|i: int| 0 <= i < s.len() && #[trigger] s[i].0 == id].1)
    } else {
        None
    }
}

/// With unique keys, the record at position `i` is the one `lookup` finds.
pub proof fn lemma_lookup_at(s: Seq<(EntryIdentifier, Entry)>, i: int)
    requires
        keys_unique(s),
        0 <= i < s.len(),
    ensures
        lookup(s, s[i].0) == Some(s[i].1),
{
    assert(has_key(s, s[i].0));
}

/// What `keep` returns are records of `s` that satisfy `f`, each record of
/// `s` that satisfies `f` among them, and with unique keys when `s` has them.
pub proof fn lemma_keep(s: Seq<(EntryIdentifier, Entry)>, f: spec_fn((EntryIdentifier, Entry)) -> bool)
    ensures
        keep(s, f).len() <= s.len(),
        forall|k: int|
            0 <= k < keep(s, f).len() ==> f(#[trigger] keep(s, f)[k]) && s.contains(keep(s, f)[k]),
        forall|x: (EntryIdentifier, Entry)| s.contains(x) && f(x) ==> #[trigger] keep(s, f).contains(x),
        keys_unique(s) ==> keys_unique(keep(s, f)),
    decreases s.len(),
{
    if s.len() > 0 {
        let d = s.drop_last();
        lemma_keep(d, f);
        let r = keep(s, f);
        let p = keep(d, f);
        assert forall|k: int| 0 <= k < r.len() implies f(#[trigger] r[k]) && s.contains(r[k]) by {
            if k < p.len() {
                let w = choose|w: int| 0 <= w < d.len() && d[w] == p[k];
                assert(s[w] == r[k]);
            } else {
                assert(s[s.len() - 1] == r[k]);
            }
        }
        assert forall|x: (EntryIdentifier, Entry)| s.contains(x) && f(x) implies #[trigger] r.contains(x) by {
            let w = choose|w: int| 0 <= w < s.len() && s[w] == x;
            if w == s.len() - 1 {
                assert(r[r.len() - 1] == x);
            } else {
                assert(d[w] == x);
                assert(d.contains(x));
                assert(p.contains(x));
                let v = choose|v: int| 0 <= v < p.len() && p[v] == x;
                assert(r[v] == x);
            }
        }
        if keys_unique(s) {
            assert(keys_unique(d)) by {
                assert forall|i: int, j: int| 0 <= i < d.len() && 0 <= j < d.len() && i != j implies d[i].0 != d[j].0 by {
                    assert(d[i] == s[i] && d[j] == s[j]);
                }
            }
            if f(s.last()) {
                assert forall|i: int, j: int| 0 <= i < r.len() && 0 <= j < r.len() && i != j implies r[i].0 != r[j].0 by {
                    if i < p.len() && j < p.len() {
                        assert(r[i] == p[i] && r[j] == p[j]);
                    } else if i < p.len() {
                        let w = choose|w: int| 0 <= w < d.len() && d[w] == p[i];
                        assert(s[w] == r[i]);
                        assert(r[j] == s[s.len() - 1]);
                    } else {
                        let w = choose|w: int| 0 <= w < d.len() && d[w] == p[j];
                        assert(s[w] == r[j]);
                        assert(r[i] == s[s.len() - 1]);
                    }
                }
            }
        }
    }
}

/// A peak change from `old` to `new` large enough to be shown.
pub open spec fn peak_moved(old: u32, new: u32) -> bool {
    if old >= new {
        old - new >= PEAK_EPSILON
    } else {
        new - old >= PEAK_EPSILON
    }
}

/// `e` with its metered peak set to `peak`.
pub open spec fn with_peak(e: Entry, peak: u32) -> Entry {
    Entry { play_entry: Some(PlayEntry { peak }), ..e }
}

/// A peak update of `id` to `peak` is recorded in `s`: `id` is a metered
/// object of `s` and the level moved by at least the jitter threshold.
pub open spec fn peak_changed(s: Seq<(EntryIdentifier, Entry)>, id: EntryIdentifier, peak: u32) -> bool {
    &&& id.entry_type.spec_has_meter()
    &&& has_key(s, id)
    &&& peak_moved(lookup(s, id).unwrap().play_entry.unwrap().peak, peak)
}

/// `s` with the peak of the record keyed by `id` set to `peak`.
pub open spec fn set_peak(s: Seq<(EntryIdentifier, Entry)>, id: EntryIdentifier, peak: u32) -> Seq<
    (EntryIdentifier, Entry),
> {
    Seq::new(
        s.len(),
        |k: int|
            if s[k].0 == id {
                (id, with_peak(s[k].1, peak))
            } else {
                s[k]
            },
    )
}

/// Audio objects keyed by identifier, in insertion order.
pub struct Entries {
    pub list: Vec<(EntryIdentifier, Entry)>,
}

impl View for Entries {
    type V = Seq<(EntryIdentifier, Entry)>;

    open spec fn view(&self) -> Seq<(EntryIdentifier, Entry)> {
        self.list@
    }
}

impl Entries {
    /// Keys are unique and each record's metering sub-record matches its kind.
    pub open spec fn wf(&self) -> bool {
        &&& keys_unique(self@)
        &&& forall|i: int| 0 <= i < self@.len() ==> (#[trigger] self@[i]).1.fits(self@[i].0.entry_type)
    }

    pub fn new() -> (r: Entries)
        ensures
            r.wf(),
            r@ == Seq::<(EntryIdentifier, Entry)>::empty(),
    {
        Entries { list: Vec::new() }
    }

    pub fn len(&self) -> (r: usize)
        ensures
            r == self@.len(),
    {
        self.list.len()
    }

    /// Position of the record keyed by `id`.
    pub fn position(&self, id: &EntryIdentifier) -> (r: Option<usize>)
        ensures
            r matches Some(i) ==> i < self@.len() && self@[i as int].0 == *id,
            r is None ==> !has_key(self@, *id),
    {
        let mut i: usize = 0;
        while i < self.list.len()
            invariant
                i <= self@.len(),
                forall|k: int| 0 <= k < i ==> self@[k].0 != *id,
            decreases self@.len() - i,
        {
            if self.list[i].0 == *id {
                return Some(i);
            }
            i += 1;
        }
        None
    }

    pub fn contains(&self, id: &EntryIdentifier) -> (r: bool)
        ensures
            r == has_key(self@, *id),
    {
        self.position(id).is_some()
    }

    pub fn get(&self, id: &EntryIdentifier) -> (r: Option<Entry>)
        requires
            self.wf(),
        ensures
            r == lookup(self@, *id),
    {
        match self.position(id) {
            Some(i) => {
                proof {
                    lemma_lookup_at(self@, i as int);
                }
                Some(self.list[i].1)
            },
            None => None,
        }
    }

    /// The records of kind `t`, in insertion order.
    pub fn iter_type(&self, t: EntryType) -> (r: Vec<(EntryIdentifier, Entry)>)
        ensures
            r@ == of_type(self@, t),
    {
        let mut r: Vec<(EntryIdentifier, Entry)> = Vec::new();
        let mut i: usize = 0;
        while i < self.list.len()
            invariant
                i <= self@.len(),
                r@ == of_type(self@.take(i as int), t),
            decreases self@.len() - i,
        {
            assert(self@.take(i + 1).drop_last() == self@.take(i as int));
            if self.list[i].0.entry_type == t {
                r.push(self.list[i]);
            }
            i += 1;
        }
        assert(self@.take(i as int) == self@);
        r
    }

    /// Adds the record keyed by `id`, or replaces the one already there.
    pub fn insert(&mut self, id: EntryIdentifier, e: Entry)
        requires
            old(self).wf(),
            e.fits(id.entry_type),
        ensures
            final(self).wf(),
            final(self)@ == upsert(old(self)@, id, e),
            lookup(final(self)@, id) == Some(e),
    {
        match self.position(&id) {
            Some(i) => {
                assert(old(self)@[i as int].0 == id);
                self.list.set(i, (id, e));
                proof {
                    lemma_lookup_at(self@, i as int);
                }
            },
            None => {
                self.list.push((id, e));
                proof {
                    lemma_lookup_at(self@, self@.len() - 1);
                }
            },
        }
    }

    /// Records a new peak level for `id`. Nothing changes for an object
    /// without a meter, an unknown object, or a change below the jitter
    /// threshold; the result tells whether the level was recorded.
    pub fn update_peak(&mut self, id: &EntryIdentifier, peak: u32) -> (changed: bool)
        requires
            old(self).wf(),
        ensures
            final(self).wf(),
            changed == peak_changed(old(self)@, *id, peak),
            !changed ==> final(self)@ == old(self)@,
            changed ==> final(self)@ == set_peak(old(self)@, *id, peak),
    {
        if !id.entry_type.has_meter() {
            return false;
        }
        match self.position(id) {
            None => false,
            Some(i) => {
                proof {
                    lemma_lookup_at(self@, i as int);
                }
                let e = self.list[i].1;
                let old_peak = match e.play_entry {
                    Some(p) => p.peak,
                    None => {
                        return false;
                    },
                };
                let moved = if old_peak >= peak {
                    old_peak - peak >= PEAK_EPSILON
                } else {
                    peak - old_peak >= PEAK_EPSILON
                };
                if !moved {
                    return false;
                }
                let ne = Entry { play_entry: Some(PlayEntry { peak }), ..e };
                self.list.set(i, (*id, ne));
                assert(self@ =~= set_peak(old(self)@, *id, peak));
                true
            },
        }
    }

    /// Drops the record keyed by `id`, if there is one.
    pub fn remove(&mut self, id: &EntryIdentifier)
        requires
            old(self).wf(),
        ensures
            final(self).wf(),
            final(self)@ == without(old(self)@, *id),
            !has_key(final(self)@, *id),
    {
        let ghost s = self@;
        let mut r: Vec<(EntryIdentifier, Entry)> = Vec::new();
        let mut i: usize = 0;
        while i < self.list.len()
            invariant
                i <= s.len(),
                s == self@,
                r@ == without(s.take(i as int), *id),
            decreases s.len() - i,
        {
            assert(s.take(i + 1).drop_last() == s.take(i as int));
            if self.list[i].0 != *id {
                r.push(self.list[i]);
            }
            i += 1;
        }
        assert(s.take(i as int) == s);
        self.list = r;
        proof {
            lemma_keep(s, other_key(*id));
            assert forall|i: int| 0 <= i < self@.len() implies (#[trigger] self@[i]).1.fits(self@[i].0.entry_type) by {
                let w = choose|w: int| 0 <= w < s.len() && s[w] == self@[i];
                assert(s[w].1.fits(s[w].0.entry_type));
            }
            if has_key(self@, *id) {
                let w = choose|w: int| 0 <= w < self@.len() && self@[w].0 == *id;
                assert(self@[w].0 != *id);
            }
        }
    }
}

} // verus!
