//! The per-key counts of one batch window.
use vstd::prelude::*;

verus! {

/// One store write: add `amount` to the hit counter of `key`.
pub struct Increment {
    pub key: String,
    pub amount: u64,
}

/// A window as a sequence of (key, count) pairs, each key once, in the order
/// of the key's first hit.
pub type Counts = Seq<(Seq<char>, nat)>;

/// The counts after one more hit for `k`: the entry of `k` goes up by one, or
/// a new entry with count one is appended.
pub open spec fn add_hit(w: Counts, k: Seq<char>) -> Counts {
    if exists|i: int| 0 <= i < w.len() && (#[trigger] w[i]).0 == k {
        let i = choose|i: int| 0 <= i < w.len() && (#[trigger] w[i]).0 == k;
        w.update(i, (k, w[i].1 + 1))
    } else {
        w.push((k, 1))
    }
}

/// The counts that a sequence of hits builds from an empty window.
pub open spec fn window_of(hits: Seq<Seq<char>>) -> Counts
    decreases hits.len(),
{
    if hits.len() == 0 {
        Seq::empty()
    } else {
        add_hit(window_of(hits.drop_last()), hits.last())
    }
}

/// The count recorded for `k`, zero where `k` has no entry.
pub open spec fn count_of(w: Counts, k: Seq<char>) -> nat {
    if exists|i: int| 0 <= i < w.len() && (#[trigger] w[i]).0 == k {
        let i = choose|i: int| 0 <= i < w.len() && (#[trigger] w[i]).0 == k;
        w[i].1
    } else {
        0
    }
}

/// Each key appears once, and every count is at least one.
pub open spec fn well_formed_counts(w: Counts) -> bool {
    &&& forall|i: int, j: int| 0 <= i < j < w.len() ==> (#[trigger] w[i]).0 != (#[trigger] w[j]).0
    &&& forall|i: int| 0 <= i < w.len() ==> (#[trigger] w[i]).1 >= 1
}

/// No count exceeds `bound`.
pub open spec fn counts_at_most(w: Counts, bound: nat) -> bool {
    forall|i: int| 0 <= i < w.len() ==> (#[trigger] w[i]).1 <= bound
}

/// The (key, amount) pairs of a list of increments.
pub open spec fn increments_view(v: Seq<Increment>) -> Counts {
    Seq::new(v.len(), |i: int| (v[i].key@, v[i].amount as nat))
}

/// Adding a hit keeps keys unique, raises the count of `k` by one, and leaves
/// every other count as it was.
pub proof fn lemma_add_hit(w: Counts, k: Seq<char>)
    requires
        well_formed_counts(w),
    ensures
        well_formed_counts(add_hit(w, k)),
        count_of(add_hit(w, k), k) == count_of(w, k) + 1,
        forall|j: Seq<char>| j != k ==> count_of(add_hit(w, k), j) == count_of(w, j),
        forall|b: nat| counts_at_most(w, b) ==> counts_at_most(add_hit(w, k), b + 1),
        add_hit(w, k).len() <= w.len() + 1,
{
    let w2 = add_hit(w, k);
    if exists|i: int| 0 <= i < w.len() && (#[trigger] w[i]).0 == k {
        let i = choose|i: int| 0 <= i < w.len() && (#[trigger] w[i]).0 == k;
        assert(w2 == w.update(i, (k, w[i].1 + 1)));
        assert(w2[i].0 == k);
        assert forall|j: Seq<char>| j != k implies count_of(w2, j) == count_of(w, j) by {
            if exists|m: int| 0 <= m < w.len() && (#[trigger] w[m]).0 == j {
                let m = choose|m: int| 0 <= m < w.len() && (#[trigger] w[m]).0 == j;
                assert(w2[m].0 == j);
            }
            if exists|m: int| 0 <= m < w2.len() && (#[trigger] w2[m]).0 == j {
                let m = choose|m: int| 0 <= m < w2.len() && (#[trigger] w2[m]).0 == j;
                assert(w[m].0 == j);
            }
        }
    } else {
        assert(w2 == w.push((k, 1nat)));
        assert(w2[w.len() as int].0 == k);
        assert forall|j: Seq<char>| j != k implies count_of(w2, j) == count_of(w, j) by {
            if exists|m: int| 0 <= m < w.len() && (#[trigger] w[m]).0 == j {
                let m = choose|m: int| 0 <= m < w.len() && (#[trigger] w[m]).0 == j;
                assert(w2[m].0 == j);
            }
            if exists|m: int| 0 <= m < w2.len() && (#[trigger] w2[m]).0 == j {
                let m = choose|m: int| 0 <= m < w2.len() && (#[trigger] w2[m]).0 == j;
                assert(w[m].0 == j);
            }
        }
    }
}

/// Coalescing: the window built from any sequence of hits holds, for every
/// key, exactly the number of times that key occurs in the sequence, keeps
/// each key once, and has no entry for a key that never occurs.
pub proof fn lemma_window_counts(hits: Seq<Seq<char>>)
    ensures
        well_formed_counts(window_of(hits)),
        counts_at_most(window_of(hits), hits.len()),
        window_of(hits).len() <= hits.len(),
        forall|k: Seq<char>| count_of(window_of(hits), k) == #[trigger] hits.to_multiset().count(k),
    decreases hits.len(),
{
    broadcast use vstd::seq_lib::group_to_multiset_ensures;

    if hits.len() == 0 {
        assert forall|k: Seq<char>| count_of(window_of(hits), k) == #[trigger] hits.to_multiset().count(k) by {
            assert(hits.to_multiset().len() == 0);
        }
    } else {
        let prev = hits.drop_last();
        let k = hits.last();
        lemma_window_counts(prev);
        lemma_add_hit(window_of(prev), k);
        assert(hits == prev.push(k));
        assert(hits.to_multiset() =~= prev.to_multiset().insert(k));
        assert forall|j: Seq<char>| count_of(window_of(hits), j) == #[trigger] hits.to_multiset().count(j) by {
            assert(count_of(window_of(prev), j) == prev.to_multiset().count(j));
        }
    }
}

/// Per-key counts of the window that is open, each key once, in the order of
/// its first hit.
pub struct Window {
    keys: Vec<String>,
    counts: Vec<u64>,
}

impl View for Window {
    type V = Counts;

    closed spec fn view(&self) -> Counts {
        Seq::new(self.keys@.len(), |i: int| (self.keys@[i]@, self.counts@[i] as nat))
    }
}

impl Window {
    pub closed spec fn wf(&self) -> bool {
        &&& self.keys@.len() == self.counts@.len()
        &&& well_formed_counts(self@)
    }

    /// An empty window.
    pub fn new() -> (r: Window)
        ensures
            r.wf(),
            r@ == Seq::<(Seq<char>, nat)>::empty(),
    {
        let r = Window { keys: Vec::new(), counts: Vec::new() };
        assert(r@ =~= Seq::<(Seq<char>, nat)>::empty());
        r
    }

    /// The number of distinct keys.
    pub fn len(&self) -> (r: usize)
        requires
            self.wf(),
        ensures
            r == self@.len(),
    {
        self.keys.len()
    }

    /// Counts one hit for `key`.
    pub fn record(&mut self, key: String)
        requires
            old(self).wf(),
            count_of(old(self)@, key@) < u64::MAX,
        ensures
            final(self).wf(),
            final(self)@ == add_hit(old(self)@, key@),
    {
        let ghost w = self@;
        let n = self.keys.len();
        let mut i: usize = 0;
        let mut found = false;
        while i < n
            invariant
                n == self.keys@.len(),
                self.wf(),
                self@ == w,
                0 <= i <= n,
                found ==> i < n && w[i as int].0 == key@,
                !found ==> forall|m: int| 0 <= m < i ==> (#[trigger] w[m]).0 != key@,
            ensures
                self.wf(),
                self@ == w,
                found ==> i < n && w[i as int].0 == key@,
                !found ==> forall|m: int| 0 <= m < n ==> (#[trigger] w[m]).0 != key@,
            decreases n - i + (if found { 0int } else { 1int }),
        {
            if self.keys[i] == key {
                found = true;
                break;
            }
            i = i + 1;
        }
        proof {
            lemma_add_hit(w, key@);
        }
        if found {
            proof {
                let c = choose|m: int| 0 <= m < w.len() && (#[trigger] w[m]).0 == key@;
                assert(w[c].0 == w[i as int].0);
                assert(c == i as int);
                assert(count_of(w, key@) == w[i as int].1);
            }
            let c = self.counts[i];
            self.counts.set(i, c + 1);
            assert(self@ =~= add_hit(w, key@));
        } else {
            assert(!(exists|m: int| 0 <= m < w.len() && (#[trigger] w[m]).0 == key@));
            let ghost k = key@;
            self.keys.push(key);
            self.counts.push(1);
            assert(self@[n as int] == (k, 1nat));
            assert(self@ =~= w.push((k, 1nat)));
            assert(self@ =~= add_hit(w, k));
        }
    }

    /// The increments that flush this window: one per key, with its count,
    /// in the window's order.
    pub fn increments(&self) -> (r: Vec<Increment>)
        requires
            self.wf(),
        ensures
            increments_view(r@) == self@,
    {
        let mut r: Vec<Increment> = Vec::new();
        let n = self.keys.len();
        let mut i: usize = 0;
        while i < n
            invariant
                n == self.keys@.len(),
                self.wf(),
                0 <= i <= n,
                r@.len() == i,
                forall|m: int| 0 <= m < i ==> (#[trigger] increments_view(r@)[m]) == self@[m],
            decreases n - i,
        {
            let ghost before = r@;
            r.push(Increment { key: self.keys[i].clone(), amount: self.counts[i] });
            assert(increments_view(r@)[i as int] == self@[i as int]);
            assert forall|m: int| 0 <= m < i implies (#[trigger] increments_view(r@)[m]) == self@[m] by {
                assert(r@[m] == before[m]);
                assert(increments_view(before)[m] == self@[m]);
            }
            i = i + 1;
        }
        assert(increments_view(r@) =~= self@);
        r
    }
}

} // verus!
