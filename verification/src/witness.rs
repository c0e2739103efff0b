use std::collections::BTreeSet;

use vstd::laws_cmp::obeys_cmp;
use vstd::prelude::*;
use vstd::std_specs::btree::{increasing_seq, spec_btree_keys_iter};
use vstd::std_specs::cmp::OrdSpec;
use vstd::std_specs::iter::IteratorSpec;

verus! {

broadcast use vstd::std_specs::btree::group_btree_axioms;

/// The index of a witness of the constraint system.
///
/// Index 0 is reserved: the first witness that an evaluator creates has index 1.
#[derive(Clone, Copy, Debug, PartialEq, Eq, Structural)]
pub struct Witness(pub u32);

impl Witness {
    pub fn witness_index(&self) -> (r: u32)
        ensures
            r == self.0,
    {
        self.0
    }

    pub fn as_usize(&self) -> (r: usize)
        ensures
            r == self.0,
    {
        self.0 as usize
    }
}

/// The indices of a sequence of witnesses, in the same order.
pub open spec fn indices(ws: Seq<Witness>) -> Seq<u32> {
    ws.map_values(|w: Witness| w.0)
}

pub open spec fn strictly_increasing(s: Seq<u32>) -> bool {
    forall|i: int, j: int| 0 <= i < j < s.len() ==> s[i] < s[j]
}

/// The elements of a finite set of indices, in increasing order.
pub open spec fn sorted_indices(s: Set<u32>) -> Seq<u32> {
    choose|q: Seq<u32>| strictly_increasing(q) && q.to_set() == s
}

/// Two strictly increasing sequences with the same elements are equal.
pub proof fn lemma_increasing_unique(q1: Seq<u32>, q2: Seq<u32>)
    requires
        strictly_increasing(q1),
        strictly_increasing(q2),
        q1.to_set() == q2.to_set(),
    ensures
        q1 == q2,
    decreases q1.len(),
{
    if q1.len() == 0 {
        if q2.len() > 0 {
            assert(q2.to_set().contains(q2[0]));
            assert(!q1.contains(q2[0]));
        }
        assert(q1 =~= q2);
    } else {
        assert(q1.to_set().contains(q1[0]));
        assert(q2.contains(q1[0]));
        let j = choose|j: int| 0 <= j < q2.len() && q2[j] == q1[0];
        assert(q2.to_set().contains(q2[0]));
        assert(q1.contains(q2[0]));
        let k = choose|k: int| 0 <= k < q1.len() && q1[k] == q2[0];
        if j > 0 && k > 0 {
            assert(q2[0] < q2[j]);
            assert(q1[0] < q1[k]);
        }
        assert(q1[0] == q2[0]);
        let r1 = q1.drop_first();
        let r2 = q2.drop_first();
        assert forall|x: u32| r1.to_set().contains(x) <==> r2.to_set().contains(x) by {
            if r1.contains(x) {
                let a = choose|a: int| 0 <= a < r1.len() && r1[a] == x;
                assert(q1[a + 1] == x && q1[0] < q1[a + 1]);
                assert(q1.contains(x));
                assert(q1.to_set().contains(x));
                assert(q2.contains(x));
                let b = choose|b: int| 0 <= b < q2.len() && q2[b] == x;
                assert(b != 0);
                assert(r2[b - 1] == x);
            }
            if r2.contains(x) {
                let a = choose|a: int| 0 <= a < r2.len() && r2[a] == x;
                assert(q2[a + 1] == x && q2[0] < q2[a + 1]);
                assert(q2.contains(x));
                assert(q2.to_set().contains(x));
                assert(q1.contains(x));
                let b = choose|b: int| 0 <= b < q1.len() && q1[b] == x;
                assert(b != 0);
                assert(r1[b - 1] == x);
            }
        }
        assert(r1.to_set() =~= r2.to_set());
        lemma_increasing_unique(r1, r2);
        assert(q1 =~= seq![q1[0]] + r1);
        assert(q2 =~= seq![q2[0]] + r2);
    }
}

/// A strictly increasing sequence is the ordered list of its own elements.
pub proof fn lemma_sorted_indices_of(q: Seq<u32>)
    requires
        strictly_increasing(q),
    ensures
        sorted_indices(q.to_set()) == q,
{
    let r = sorted_indices(q.to_set());
    assert(strictly_increasing(q) && q.to_set() == q.to_set());
    lemma_increasing_unique(r, q);
}

/// `s[i]` comes before `s[j]` in the order of `K`.
spec fn less_at<K: Ord>(s: Seq<K>, i: int, j: int) -> bool {
    s[i].cmp_spec(&s[j]) is Less
}

/// The keys of a set of indices, in the order in which it hands them out, are its elements in
/// increasing order.
proof fn lemma_set_keys_increasing(s: &BTreeSet<u32>)
    ensures
        strictly_increasing(spec_btree_keys_iter(s).remaining().unref()),
        spec_btree_keys_iter(s).remaining().unref().to_set() == s@,
{
    let r = spec_btree_keys_iter(s).remaining();
    assert(obeys_cmp::<&u32>());
    assert(increasing_seq(r));
    assert forall|i: int, j: int| 0 <= i < j < r.unref().len() implies r.unref()[i] < r.unref()[j] by {
        assert(less_at(r, i, j));
    }
}

/// A set of witnesses, iterated in increasing order of index.
pub struct WitnessSet {
    indices: BTreeSet<u32>,
}

impl View for WitnessSet {
    type V = Set<u32>;

    closed spec fn view(&self) -> Set<u32> {
        self.indices@
    }
}

impl WitnessSet {
    pub fn new() -> (s: Self)
        ensures
            s@ == Set::<u32>::empty(),
    {
        WitnessSet { indices: BTreeSet::new() }
    }

    pub fn len(&self) -> (n: usize)
        ensures
            n == self@.len(),
    {
        self.indices.len()
    }

    pub fn contains(&self, w: Witness) -> (r: bool)
        ensures
            r == self@.contains(w.0),
    {
        self.indices.contains(&w.0)
    }

    /// The witnesses of the set, in increasing order of index.
    pub fn to_vec(&self) -> (v: Vec<Witness>)
        ensures
            strictly_increasing(indices(v@)),
            indices(v@).to_set() == self@,
            indices(v@) == sorted_indices(self@),
    {
        let mut v: Vec<Witness> = Vec::new();
        for x in iter: self.indices.iter()
            invariant
                v.len() == iter.index(),
                iter.seq() == spec_btree_keys_iter(&self.indices).remaining(),
                forall|i: int| 0 <= i < v.len() ==> v@[i].0 == *iter.seq()[i],
        {
            v.push(Witness(*x));
        }
        proof {
            let r = spec_btree_keys_iter(&self.indices).remaining();
            lemma_set_keys_increasing(&self.indices);
            assert(indices(v@) =~= r.unref());
            lemma_sorted_indices_of(indices(v@));
        }
        v
    }

    pub fn insert(&mut self, w: Witness)
        ensures
            final(self)@ == old(self)@.insert(w.0),
    {
        self.indices.insert(w.0);
    }

    pub fn extend(&mut self, ws: &Vec<Witness>)
        ensures
            final(self)@ == old(self)@.union(indices(ws@).to_set()),
    {
        let ghost s0 = self@;
        let mut k: usize = 0;
        while k < ws.len()
            invariant
                k <= ws@.len(),
                self@ == s0.union(indices(ws@.take(k as int)).to_set()),
            decreases ws@.len() - k,
        {
            self.insert(ws[k]);
            proof {
                let a = indices(ws@.take(k as int));
                let b = indices(ws@.take(k + 1));
                assert(b =~= a.push(ws@[k as int].0));
                a.lemma_push_to_set_commute(ws@[k as int].0);
                assert(self@ =~= s0.union(b.to_set()));
            }
            k = k + 1;
        }
        assert(ws@.take(ws@.len() as int) =~= ws@);
    }
}

} // verus!
