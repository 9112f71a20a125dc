//! Registry of the latest report of each sensor, keyed by sensor identity,
//! with eviction of stale reports.
use vstd::prelude::*;

verus! {

/// A report older than this many nanoseconds is stale.
pub const FRESHNESS_WINDOW_NS: u64 = 250_000_000;

/// The latest report of one sensor module. `reading` carries what the
/// numeric side needs (position and range); the registry reads only the
/// other fields.
#[derive(Clone, Copy)]
pub struct Module<P> {
    pub reading: P,
    /// The module reports that it sees the target.
    pub drone: bool,
    /// Latitude and longitude of the report are finite numbers.
    pub coords_finite: bool,
    /// Receipt instant, in nanoseconds of a monotonic session clock.
    pub updated: u64,
}

/// A report is fresh at `now` when it is younger than the window and its
/// coordinates are finite. A receipt instant after `now` counts as age zero.
pub open spec fn is_fresh<P>(m: Module<P>, now: u64) -> bool {
    &&& now - m.updated < FRESHNESS_WINDOW_NS
    &&& m.coords_finite
}

pub open spec fn fresh_at<P>(now: u64) -> spec_fn((Seq<char>, Module<P>)) -> bool {
    |e: (Seq<char>, Module<P>)| is_fresh(e.1, now)
}

/// No identity occurs twice.
pub open spec fn distinct_ids<P>(s: Seq<(Seq<char>, Module<P>)>) -> bool {
    forall|i: int, j: int| 0 <= i < j < s.len() ==> s[i].0 != s[j].0
}

pub struct Entry<P> {
    pub id: String,
    pub module: Module<P>,
}

/// Map from sensor identity to its latest report. Its view lists the
/// entries in insertion order, each identity once.
pub struct Registry<P> {
    entries: Vec<Entry<P>>,
}

impl<P: Copy> Module<P> {
    pub fn is_fresh(&self, now: u64) -> (r: bool)
        ensures
            r == is_fresh(*self, now),
    {
        (self.updated > now || now - self.updated < FRESHNESS_WINDOW_NS) && self.coords_finite
    }
}

impl<P> View for Registry<P> {
    type V = Seq<(Seq<char>, Module<P>)>;

    closed spec fn view(&self) -> Seq<(Seq<char>, Module<P>)> {
        self.entries@.map_values(|e: Entry<P>| (e.id@, e.module))
    }
}

impl<P> Registry<P> {
    /// Each identity has one entry.
    #[verifier::type_invariant]
    spec fn unique_ids(&self) -> bool {
        distinct_ids(self@)
    }
}

impl<P: Copy> Registry<P> {
    pub fn new() -> (r: Self)
        ensures
            r@ == Seq::<(Seq<char>, Module<P>)>::empty(),
    {
        let r = Registry { entries: Vec::new() };
        assert(r@ =~= Seq::<(Seq<char>, Module<P>)>::empty());
        r
    }

    pub fn len(&self) -> (r: usize)
        ensures
            r == self@.len(),
            distinct_ids(self@),
    {
        proof {
            use_type_invariant(self);
        }
        self.entries.len()
    }

    /// Records `m` as the latest report of `id`: an existing entry of `id`
    /// is replaced where it stands, else the entry is appended.
    pub fn insert(&mut self, id: String, m: Module<P>)
        ensures
            distinct_ids(final(self)@),
            forall|i: int|
                0 <= i < old(self)@.len() && old(self)@[i].0 == id@
                    ==> final(self)@ == old(self)@.update(i, (id@, m)),
            (forall|i: int| 0 <= i < old(self)@.len() ==> old(self)@[i].0 != id@)
                ==> final(self)@ == old(self)@.push((id@, m)),
    {
        proof {
            use_type_invariant(&*self);
        }
        let ghost before = self@;
        let mut entries: Vec<Entry<P>> = Vec::new();
        std::mem::swap(&mut entries, &mut self.entries);
        assert(entries@.map_values(|e: Entry<P>| (e.id@, e.module)) == before);
        let n = entries.len();
        let mut i: usize = 0;
        while i < n
            invariant
                n == entries@.len(),
                entries@.map_values(|e: Entry<P>| (e.id@, e.module)) == before,
                before == old(self)@,
                distinct_ids(before),
                0 <= i <= n,
                forall|k: int| 0 <= k < i ==> before[k].0 != id@,
            decreases n - i,
        {
            if entries[i].id == id {
                assert(before[i as int].0 == id@);
                entries.set(i, Entry { id, module: m });
                assert(entries@.map_values(|e: Entry<P>| (e.id@, e.module)) =~= before.update(
                    i as int,
                    (id@, m),
                ));
                self.entries = entries;
                return;
            }
            i += 1;
        }
        entries.push(Entry { id, module: m });
        assert(entries@.map_values(|e: Entry<P>| (e.id@, e.module)) =~= before.push((id@, m)));
        self.entries = entries;
    }

    /// Drops every stale entry and keeps every fresh one, in order.
    pub fn evict_stale(&mut self, now: u64)
        ensures
            distinct_ids(final(self)@),
            final(self)@ == old(self)@.filter(fresh_at(now)),
            forall|i: int|
                0 <= i < old(self)@.len() && is_fresh(old(self)@[i].1, now)
                    ==> final(self)@.contains(#[trigger] old(self)@[i]),
            forall|j: int| 0 <= j < final(self)@.len() ==> is_fresh(#[trigger] final(self)@[j].1, now),
    {
        proof {
            use_type_invariant(&*self);
        }
        let ghost start = self@;
        let mut kept: Vec<Entry<P>> = Vec::new();
        let n = self.entries.len();
        let mut i: usize = 0;
        while i < n
            invariant
                n == self.entries@.len(),
                self@ == start,
                start.len() == n,
                0 <= i <= n,
                kept@.map_values(|e: Entry<P>| (e.id@, e.module)) == start.subrange(
                    0,
                    i as int,
                ).filter(fresh_at(now)),
            decreases n - i,
        {
            let ghost prev = kept@;
            let e = &self.entries[i];
            let fresh = e.module.is_fresh(now);
            if fresh {
                kept.push(Entry { id: e.id.clone(), module: e.module });
            }
            proof {
                reveal(Seq::filter);
                let sub = start.subrange(0, i + 1);
                assert(sub.drop_last() =~= start.subrange(0, i as int));
                assert(sub.last() == start[i as int]);
                assert(start[i as int] == (self.entries@[i as int].id@, self.entries@[i as int].module));
                assert(fresh_at::<P>(now)(start[i as int]) == fresh);
                if fresh {
                    assert(kept@.map_values(|e: Entry<P>| (e.id@, e.module)) =~= prev.map_values(
                        |e: Entry<P>| (e.id@, e.module),
                    ).push(start[i as int]));
                } else {
                    assert(kept@ == prev);
                }
                assert(kept@.map_values(|e: Entry<P>| (e.id@, e.module)) =~= start.subrange(
                    0,
                    i + 1,
                ).filter(fresh_at(now)));
            }
            i += 1;
        }
        proof {
            assert(start.subrange(0, n as int) =~= start);
        }
        proof {
            broadcast use vstd::seq_lib::group_filter_ensures;

            let f = fresh_at::<P>(now);
            let kept_view = start.filter(f);
            assert forall|a: int, b: int| 0 <= a < b < kept_view.len() implies kept_view[a].0
                != kept_view[b].0 by {
                lemma_filter_distinct(start, f, a, b);
            }
            assert forall|k: int| 0 <= k < start.len() && is_fresh(start[k].1, now) implies kept_view.contains(
                #[trigger] start[k],
            ) by {
                assert(f(start[k]));
            }
            assert forall|j: int| 0 <= j < kept_view.len() implies is_fresh(#[trigger] kept_view[j].1, now) by {
                assert(f(kept_view[j]));
            }
        }
        self.entries = kept;
    }

    /// A copy of the entries, in the registry's order.
    pub fn snapshot(&self) -> (r: Vec<Entry<P>>)
        ensures
            r@.len() == self@.len(),
            forall|i: int| 0 <= i < r@.len() ==> (#[trigger] r@[i].id@, r@[i].module) == self@[i],
            distinct_ids(self@),
    {
        proof {
            use_type_invariant(self);
        }
        let mut r: Vec<Entry<P>> = Vec::new();
        let n = self.entries.len();
        let mut i: usize = 0;
        while i < n
            invariant
                n == self.entries@.len(),
                0 <= i <= n,
                r@.len() == i,
                forall|k: int| 0 <= k < i ==> (#[trigger] r@[k].id@, r@[k].module) == self@[k],
            decreases n - i,
        {
            let e = &self.entries[i];
            r.push(Entry { id: e.id.clone(), module: e.module });
            i += 1;
        }
        r
    }
}

/// Filtering keeps distinct identities distinct.
proof fn lemma_filter_distinct<P>(
    s: Seq<(Seq<char>, Module<P>)>,
    f: spec_fn((Seq<char>, Module<P>)) -> bool,
    a: int,
    b: int,
)
    requires
        distinct_ids(s),
        0 <= a < b < s.filter(f).len(),
    ensures
        s.filter(f)[a].0 != s.filter(f)[b].0,
    decreases s.len(),
{
    reveal(Seq::filter);
    let t = s.drop_last();
    assert(distinct_ids(t));
    if f(s.last()) {
        if b < t.filter(f).len() {
            lemma_filter_distinct(t, f, a, b);
        } else {
            let x = t.filter(f)[a];
            assert(s.filter(f)[a] == x);
            assert(t.filter(f).contains(x));
            t.lemma_filter_contains_rev(f, x);
            let m = choose|m: int| 0 <= m < t.len() && t[m] == x;
            assert(s[m] == t[m]);
            assert(s.filter(f)[b] == s[s.len() - 1]);
        }
    } else {
        lemma_filter_distinct(t, f, a, b);
    }
}

} // verus!
