//! Result slots of a scan: one per root entry, each written by the walk of
//! that entry, then gathered into one sequence ordered by size, largest first.

use vstd::prelude::*;

verus! {

broadcast use vstd::seq_lib::group_to_multiset_ensures;

/// The results recorded in `slots`, in slot order; empty slots are skipped.
pub open spec fn recorded(slots: Seq<Option<(u64, String)>>) -> Seq<(u64, String)>
    decreases slots.len(),
{
    if slots.len() == 0 {
        Seq::empty()
    } else {
        let before = recorded(slots.drop_last());
        match slots.last() {
            Some(r) => before.push(r),
            None => before,
        }
    }
}

/// Sizes never grow from one result to a later one.
pub open spec fn sorted_by_size_desc(rs: Seq<(u64, String)>) -> bool {
    forall|i: int, j: int| 0 <= i < j < rs.len() ==> rs[i].0 >= rs[j].0
}

proof fn lemma_recorded_len(slots: Seq<Option<(u64, String)>>)
    ensures
        recorded(slots).len() <= slots.len(),
    decreases slots.len(),
{
    if slots.len() > 0 {
        lemma_recorded_len(slots.drop_last());
    }
}

proof fn lemma_insert_to_multiset(s: Seq<(u64, String)>, i: int, x: (u64, String))
    requires
        0 <= i <= s.len(),
    ensures
        s.insert(i, x).to_multiset() =~= s.to_multiset().insert(x),
{
    let t = s.insert(i, x);
    assert(t.remove(i) =~= s);
    assert(t[i] == x);
    assert(t.to_multiset().count(x) > 0) by {
        assert(t.contains(x));
    }
    assert(s.to_multiset() =~= t.to_multiset().remove(x));
}

/// One optional result per root entry.
pub struct ScanSlots {
    slots: Vec<Option<(u64, String)>>,
}

impl View for ScanSlots {
    type V = Seq<Option<(u64, String)>>;

    closed spec fn view(&self) -> Seq<Option<(u64, String)>> {
        self.slots@
    }
}

impl ScanSlots {
    /// `n` empty slots.
    pub fn new(n: usize) -> (s: ScanSlots)
        ensures
            s@.len() == n,
            forall|i: int| 0 <= i < n ==> s@[i] is None,
    {
        let mut slots: Vec<Option<(u64, String)>> = Vec::new();
        let mut k: usize = 0;
        while k < n
            invariant
                k <= n,
                slots@.len() == k,
                forall|i: int| 0 <= i < k ==> slots@[i] is None,
            decreases n - k,
        {
            slots.push(None);
            k = k + 1;
        }
        ScanSlots { slots }
    }

    /// The number of slots.
    pub fn len(&self) -> (r: usize)
        ensures
            r == self@.len(),
    {
        self.slots.len()
    }

    /// Records the total size of the entry of slot `index` and its name.
    pub fn record(&mut self, index: usize, size: u64, name: String)
        requires
            index < old(self)@.len(),
        ensures
            final(self)@ == old(self)@.update(index as int, Some((size, name))),
    {
        self.slots.set(index, Some((size, name)));
    }

    /// Every recorded result, each once, largest size first; empty slots are
    /// left out, so there are never more results than slots.
    pub fn into_sorted(self) -> (r: Vec<(u64, String)>)
        ensures
            r@.to_multiset() == recorded(self@).to_multiset(),
            sorted_by_size_desc(r@),
            r@.len() <= self@.len(),
    {
        let ghost all = self@;
        let mut slots = self.slots;
        let mut out: Vec<(u64, String)> = Vec::new();
        while slots.len() > 0
            invariant
                slots@.len() <= all.len(),
                slots@ == all.subrange(0, slots@.len() as int),
                sorted_by_size_desc(out@),
                out@.to_multiset().add(recorded(slots@).to_multiset()) == recorded(
                    all,
                ).to_multiset(),
            decreases slots@.len(),
        {
            let ghost before = slots@;
            let slot = slots.pop();
            assert(slots@ == before.drop_last());
            if let Some(Some(item)) = slot {
                let mut i: usize = 0;
                while i < out.len() && out[i].0 >= item.0
                    invariant
                        i <= out@.len(),
                        forall|k: int| 0 <= k < i ==> out@[k].0 >= item.0,
                    decreases out@.len() - i,
                {
                    i = i + 1;
                }
                let ghost prev = out@;
                proof {
                    lemma_insert_to_multiset(prev, i as int, item);
                    assert(recorded(before) == recorded(slots@).push(item));
                    assert(recorded(before).to_multiset() =~= recorded(slots@).to_multiset().insert(
                        item,
                    ));
                }
                out.insert(i, item);
                assert(sorted_by_size_desc(out@)) by {
                    assert forall|a: int, b: int| 0 <= a < b < out@.len() implies out@[a].0
                        >= out@[b].0 by {
                        if i < prev.len() {
                            assert(prev[i as int].0 < item.0);
                        }
                    }
                }
                assert(out@.to_multiset().add(recorded(slots@).to_multiset()) =~= prev.to_multiset().add(
                    recorded(before).to_multiset(),
                ));
            } else {
                assert(recorded(before) == recorded(slots@));
            }
            assert(slots@ =~= all.subrange(0, slots@.len() as int));
        }
        proof {
            assert(slots@ =~= Seq::<Option<(u64, String)>>::empty());
            assert(recorded(slots@) =~= Seq::<(u64, String)>::empty());
            assert(out@.to_multiset() =~= recorded(all).to_multiset());
            lemma_recorded_len(all);
            assert(out@.len() == out@.to_multiset().len());
            assert(recorded(all).len() == recorded(all).to_multiset().len());
        }
        out
    }
}

} // verus!
