use vstd::prelude::*;

use crate::names::{
    lemma_str_lt_asymmetric, lemma_str_lt_irreflexive, lemma_str_lt_total, lemma_str_lt_transitive,
    str_less, str_lt,
};
use crate::witness::Witness;

verus! {

/// Entries of a name-keyed map, as spec values.
pub open spec fn keys_sorted<V>(s: Seq<(Seq<char>, V)>) -> bool {
    forall|i: int, j: int| 0 <= i < j < s.len() ==> str_lt(#[trigger] s[i].0, #[trigger] s[j].0)
}

pub open spec fn has_key<V>(s: Seq<(Seq<char>, V)>, k: Seq<char>) -> bool {
    exists|i: int| 0 <= i < s.len() && s[i].0 == k
}

pub open spec fn key_index<V>(s: Seq<(Seq<char>, V)>, k: Seq<char>) -> int {
    choose|i: int| 0 <= i < s.len() && s[i].0 == k
}

/// The map that a list of (name, witnesses) entries stands for.
pub open spec fn assoc_map<V>(s: Seq<(Seq<char>, V)>) -> Map<Seq<char>, V> {
    Map::new(|k: Seq<char>| has_key(s, k), |k: Seq<char>| s[key_index(s, k)].1)
}

/// The entries of a finite map, in increasing order of name (the order in which a
/// `BTreeMap<String, _>` is iterated).
pub open spec fn sorted_entries<V>(m: Map<Seq<char>, V>) -> Seq<(Seq<char>, V)> {
    choose|s: Seq<(Seq<char>, V)>| keys_sorted(s) && assoc_map(s) == m
}

/// The witnesses of a list of entries, concatenated in the order of the list.
pub open spec fn flattened(s: Seq<(Seq<char>, Seq<Witness>)>) -> Seq<Witness> {
    s.map_values(|e: (Seq<char>, Seq<Witness>)| e.1).flatten()
}

/// The witnesses of a map, concatenated in increasing order of name.
pub open spec fn values_in_key_order(m: Map<Seq<char>, Seq<Witness>>) -> Seq<Witness> {
    flattened(sorted_entries(m))
}

pub proof fn lemma_key_index<V>(s: Seq<(Seq<char>, V)>, i: int)
    requires
        keys_sorted(s),
        0 <= i < s.len(),
    ensures
        key_index(s, s[i].0) == i,
        assoc_map(s).dom().contains(s[i].0),
        assoc_map(s)[s[i].0] == s[i].1,
{
    assert(has_key(s, s[i].0));
    let j = key_index(s, s[i].0);
    if j < i {
        assert(str_lt(s[j].0, s[i].0));
        lemma_str_lt_irreflexive(s[i].0);
    } else if j > i {
        assert(str_lt(s[i].0, s[j].0));
        lemma_str_lt_irreflexive(s[i].0);
    }
}

proof fn lemma_replace<V>(s: Seq<(Seq<char>, V)>, i: int, v: V)
    requires
        keys_sorted(s),
        0 <= i < s.len(),
    ensures
        keys_sorted(s.update(i, (s[i].0, v))),
        assoc_map(s.update(i, (s[i].0, v))) == assoc_map(s).insert(s[i].0, v),
{
    let k = s[i].0;
    let t = s.update(i, (k, v));
    assert(keys_sorted(t)) by {
        assert forall|a: int, b: int| 0 <= a < b < t.len() implies str_lt(
            #[trigger] t[a].0,
            #[trigger] t[b].0,
        ) by {
            assert(t[a].0 == s[a].0 && t[b].0 == s[b].0);
        }
    }
    assert forall|q: Seq<char>| #[trigger]
        assoc_map(t).dom().contains(q) == assoc_map(s).insert(k, v).dom().contains(q) by {
        if has_key(t, q) {
            let j = choose|j: int| 0 <= j < t.len() && t[j].0 == q;
            assert(s[j].0 == q);
        }
        if has_key(s, q) {
            let j = choose|j: int| 0 <= j < s.len() && s[j].0 == q;
            assert(t[j].0 == q);
        }
    }
    assert forall|q: Seq<char>| #[trigger] assoc_map(t).dom().contains(q) implies assoc_map(t)[q]
        == assoc_map(s).insert(k, v)[q] by {
        let j = choose|j: int| 0 <= j < t.len() && t[j].0 == q;
        lemma_key_index(t, j);
        lemma_key_index(s, j);
        if j < i {
            assert(str_lt(s[j].0, s[i].0));
            lemma_str_lt_irreflexive(q);
        } else if j > i {
            assert(str_lt(s[i].0, s[j].0));
            lemma_str_lt_irreflexive(q);
        }
    }
    assert(assoc_map(t) =~= assoc_map(s).insert(k, v));
}

proof fn lemma_insert_new<V>(
    s: Seq<(Seq<char>, V)>,
    i: int,
    k: Seq<char>,
    v: V,
)
    requires
        keys_sorted(s),
        0 <= i <= s.len(),
        forall|j: int| 0 <= j < i ==> str_lt(#[trigger] s[j].0, k),
        forall|j: int| i <= j < s.len() ==> str_lt(k, #[trigger] s[j].0),
    ensures
        keys_sorted(s.insert(i, (k, v))),
        assoc_map(s.insert(i, (k, v))) == assoc_map(s).insert(k, v),
{
    let t = s.insert(i, (k, v));
    assert(keys_sorted(t)) by {
        assert forall|a: int, b: int| 0 <= a < b < t.len() implies str_lt(
            #[trigger] t[a].0,
            #[trigger] t[b].0,
        ) by {
            if b < i {
            } else if b == i {
            } else if a < i {
                lemma_str_lt_transitive(s[a].0, k, s[b - 1].0);
            } else if a == i {
            } else {
            }
        }
    }
    assert forall|q: Seq<char>| #[trigger]
        assoc_map(t).dom().contains(q) == assoc_map(s).insert(k, v).dom().contains(q) by {
        if has_key(t, q) {
            let j = choose|j: int| 0 <= j < t.len() && t[j].0 == q;
            if j < i {
                assert(s[j].0 == q);
            } else if j > i {
                assert(s[j - 1].0 == q);
            }
        }
        if has_key(s, q) {
            let j = choose|j: int| 0 <= j < s.len() && s[j].0 == q;
            if j < i {
                assert(t[j].0 == q);
            } else {
                assert(t[j + 1].0 == q);
            }
        }
        if q == k {
            assert(t[i].0 == q);
        }
    }
    assert forall|q: Seq<char>| #[trigger] assoc_map(t).dom().contains(q) implies assoc_map(t)[q]
        == assoc_map(s).insert(k, v)[q] by {
        let j = choose|j: int| 0 <= j < t.len() && t[j].0 == q;
        lemma_key_index(t, j);
        if j < i {
            lemma_key_index(s, j);
            if q == k {
                lemma_str_lt_irreflexive(k);
            }
        } else if j > i {
            lemma_key_index(s, j - 1);
            if q == k {
                lemma_str_lt_irreflexive(k);
            }
        }
    }
    assert(assoc_map(t) =~= assoc_map(s).insert(k, v));
}

proof fn lemma_drop_first<V>(s: Seq<(Seq<char>, V)>)
    requires
        keys_sorted(s),
        s.len() > 0,
    ensures
        keys_sorted(s.drop_first()),
        assoc_map(s.drop_first()) == assoc_map(s).remove(s[0].0),
{
    let t = s.drop_first();
    assert(keys_sorted(t)) by {
        assert forall|a: int, b: int| 0 <= a < b < t.len() implies str_lt(
            #[trigger] t[a].0,
            #[trigger] t[b].0,
        ) by {
            assert(t[a] == s[a + 1] && t[b] == s[b + 1]);
        }
    }
    assert forall|q: Seq<char>| #[trigger]
        assoc_map(t).dom().contains(q) == assoc_map(s).remove(s[0].0).dom().contains(q) by {
        if has_key(t, q) {
            let j = choose|j: int| 0 <= j < t.len() && t[j].0 == q;
            assert(s[j + 1].0 == q);
            assert(str_lt(s[0].0, s[j + 1].0));
            lemma_str_lt_irreflexive(q);
        }
        if has_key(s, q) && q != s[0].0 {
            let j = choose|j: int| 0 <= j < s.len() && s[j].0 == q;
            assert(t[j - 1].0 == q);
        }
    }
    assert forall|q: Seq<char>| #[trigger] assoc_map(t).dom().contains(q) implies assoc_map(t)[q]
        == assoc_map(s).remove(s[0].0)[q] by {
        let j = choose|j: int| 0 <= j < t.len() && t[j].0 == q;
        lemma_key_index(t, j);
        lemma_key_index(s, j + 1);
    }
    assert(assoc_map(t) =~= assoc_map(s).remove(s[0].0));
}

/// Two lists of entries in increasing order of name that stand for the same map are equal:
/// the order of a map's entries is fixed by their names.
pub proof fn lemma_sorted_entries_unique<V>(
    s1: Seq<(Seq<char>, V)>,
    s2: Seq<(Seq<char>, V)>,
)
    requires
        keys_sorted(s1),
        keys_sorted(s2),
        assoc_map(s1) == assoc_map(s2),
    ensures
        s1 == s2,
    decreases s1.len(),
{
    if s1.len() == 0 {
        if s2.len() > 0 {
            lemma_key_index(s2, 0);
            assert(!has_key(s1, s2[0].0));
        }
        assert(s1 =~= s2);
    } else {
        lemma_key_index(s1, 0);
        if s2.len() == 0 {
            assert(!has_key(s2, s1[0].0));
        }
        assert(s2.len() > 0);
        lemma_key_index(s2, 0);
        let k1 = s1[0].0;
        let k2 = s2[0].0;
        let j2 = key_index(s2, k1);
        let j1 = key_index(s1, k2);
        assert(has_key(s2, k1));
        assert(has_key(s1, k2));
        if j2 > 0 && j1 > 0 {
            assert(str_lt(k2, s2[j2].0));
            assert(str_lt(k1, s1[j1].0));
            lemma_str_lt_asymmetric(k1, k2);
        }
        assert(k1 == k2);
        assert(s1[0].1 == s2[0].1);
        lemma_drop_first(s1);
        lemma_drop_first(s2);
        lemma_sorted_entries_unique(s1.drop_first(), s2.drop_first());
        assert(s1 =~= seq![s1[0]] + s1.drop_first());
        assert(s2 =~= seq![s2[0]] + s2.drop_first());
    }
}

/// A list of entries in increasing order of name is the ordered list of its own map.
pub proof fn lemma_sorted_entries_of<V>(s: Seq<(Seq<char>, V)>)
    requires
        keys_sorted(s),
    ensures
        sorted_entries(assoc_map(s)) == s,
{
    let t = sorted_entries(assoc_map(s));
    assert(keys_sorted(s) && assoc_map(s) == assoc_map(s));
    lemma_sorted_entries_unique(t, s);
}

/// `m` is the map of some list of entries in increasing order of name.
pub open spec fn representable<V>(m: Map<Seq<char>, V>) -> bool {
    exists|s: Seq<(Seq<char>, V)>| keys_sorted(s) && assoc_map(s) == m
}

/// The number of leading entries whose names come before `k`.
pub open spec fn insert_pos<V>(s: Seq<(Seq<char>, V)>, k: Seq<char>) -> int
    decreases s.len(),
{
    if s.len() == 0 {
        0
    } else if str_lt(s[0].0, k) {
        1 + insert_pos(s.drop_first(), k)
    } else {
        0
    }
}

proof fn lemma_insert_pos<V>(s: Seq<(Seq<char>, V)>, k: Seq<char>)
    requires
        keys_sorted(s),
    ensures
        0 <= insert_pos(s, k) <= s.len(),
        forall|j: int| 0 <= j < insert_pos(s, k) ==> str_lt(#[trigger] s[j].0, k),
        forall|j: int| insert_pos(s, k) <= j < s.len() ==> !str_lt(#[trigger] s[j].0, k),
    decreases s.len(),
{
    if s.len() > 0 {
        let t = s.drop_first();
        assert(keys_sorted(t)) by {
            assert forall|a: int, b: int| 0 <= a < b < t.len() implies str_lt(
                #[trigger] t[a].0,
                #[trigger] t[b].0,
            ) by {
                assert(t[a] == s[a + 1] && t[b] == s[b + 1]);
            }
        }
        lemma_insert_pos(t, k);
        if str_lt(s[0].0, k) {
            assert forall|j: int| 0 <= j < insert_pos(s, k) implies str_lt(#[trigger] s[j].0, k) by {
                if j > 0 {
                    assert(s[j] == t[j - 1]);
                }
            }
            assert forall|j: int| insert_pos(s, k) <= j < s.len() implies !str_lt(
                #[trigger] s[j].0,
                k,
            ) by {
                assert(s[j] == t[j - 1]);
            }
        } else {
            assert forall|j: int| 0 <= j < s.len() implies !str_lt(#[trigger] s[j].0, k) by {
                if j > 0 {
                    assert(str_lt(s[0].0, s[j].0));
                    lemma_str_lt_transitive(s[0].0, s[j].0, k);
                }
            }
        }
    }
}

pub proof fn lemma_representable_empty<V>()
    ensures
        representable(Map::<Seq<char>, V>::empty()),
{
    let s = Seq::<(Seq<char>, V)>::empty();
    assert(assoc_map(s) =~= Map::<Seq<char>, V>::empty());
}

/// Inserting into a map of sorted entries gives a map of sorted entries.
pub proof fn lemma_representable_insert<V>(m: Map<Seq<char>, V>, k: Seq<char>, v: V)
    requires
        representable(m),
    ensures
        representable(m.insert(k, v)),
{
    let s = choose|s: Seq<(Seq<char>, V)>| keys_sorted(s) && assoc_map(s) == m;
    lemma_insert_pos(s, k);
    let p = insert_pos(s, k);
    if p < s.len() && s[p].0 == k {
        lemma_replace(s, p, v);
        assert(s.update(p, (s[p].0, v)) == s.update(p, (k, v)));
    } else {
        assert forall|j: int| p <= j < s.len() implies str_lt(k, #[trigger] s[j].0) by {
            if s[j].0 == k {
                if j > p {
                    assert(str_lt(s[p].0, s[j].0));
                }
            }
            lemma_str_lt_total(s[j].0, k);
        }
        lemma_insert_new(s, p, k, v);
    }
}

/// Each witness of the concatenation comes from one of the entries.
pub proof fn lemma_flattened_within(s: Seq<(Seq<char>, Seq<Witness>)>, lo: int, hi: int)
    requires
        forall|i: int, j: int|
            0 <= i < s.len() && 0 <= j < s[i].1.len() ==> lo < (#[trigger] s[i].1[j]).0 <= hi,
    ensures
        forall|k: int| 0 <= k < flattened(s).len() ==> lo < (#[trigger] flattened(s)[k]).0 <= hi,
    decreases s.len(),
{
    if s.len() > 0 {
        let vs = s.map_values(|e: (Seq<char>, Seq<Witness>)| e.1);
        let rest = s.drop_first();
        assert(vs.drop_first() =~= rest.map_values(|e: (Seq<char>, Seq<Witness>)| e.1));
        assert forall|i: int, j: int|
            0 <= i < rest.len() && 0 <= j < rest[i].1.len() implies lo < (
            #[trigger] rest[i].1[j]).0 <= hi by {
            assert(rest[i] == s[i + 1]);
        }
        lemma_flattened_within(rest, lo, hi);
        assert(flattened(s) == s[0].1 + flattened(rest));
        assert forall|k: int| 0 <= k < flattened(s).len() implies lo < (
        #[trigger] flattened(s)[k]).0 <= hi by {
            if k < s[0].1.len() {
                assert(flattened(s)[k] == s[0].1[k]);
            } else {
                assert(flattened(s)[k] == flattened(rest)[k - s[0].1.len()]);
            }
        }
    }
}

proof fn lemma_flattened_index(s: Seq<(Seq<char>, Seq<Witness>)>, k: int)
    requires
        0 <= k < flattened(s).len(),
    ensures
        exists|i: int, j: int|
            0 <= i < s.len() && 0 <= j < s[i].1.len() && flattened(s)[k] == s[i].1[j],
    decreases s.len(),
{
    let vs = s.map_values(|e: (Seq<char>, Seq<Witness>)| e.1);
    let rest = s.drop_first();
    assert(vs.drop_first() =~= rest.map_values(|e: (Seq<char>, Seq<Witness>)| e.1));
    assert(flattened(s) == s[0].1 + flattened(rest));
    if k < s[0].1.len() {
        assert(flattened(s)[k] == s[0].1[k]);
    } else {
        lemma_flattened_index(rest, k - s[0].1.len());
        let (i, j) = choose|i: int, j: int|
            0 <= i < rest.len() && 0 <= j < rest[i].1.len() && flattened(rest)[k
                - s[0].1.len()] == rest[i].1[j];
        assert(rest[i] == s[i + 1]);
        assert(flattened(s)[k] == s[i + 1].1[j]);
    }
}

/// When no witness occurs twice among the entries, none occurs twice in their concatenation.
pub proof fn lemma_flattened_distinct(s: Seq<(Seq<char>, Seq<Witness>)>)
    requires
        forall|i1: int, j1: int, i2: int, j2: int|
            0 <= i1 < s.len() && 0 <= i2 < s.len() && 0 <= j1 < s[i1].1.len() && 0 <= j2
                < s[i2].1.len() && (i1 != i2 || j1 != j2) ==> #[trigger] s[i1].1[j1]
                != #[trigger] s[i2].1[j2],
    ensures
        flattened(s).no_duplicates(),
    decreases s.len(),
{
    if s.len() > 0 {
        let vs = s.map_values(|e: (Seq<char>, Seq<Witness>)| e.1);
        let rest = s.drop_first();
        assert(vs.drop_first() =~= rest.map_values(|e: (Seq<char>, Seq<Witness>)| e.1));
        let a = s[0].1;
        let b = flattened(rest);
        assert(flattened(s) == a + b);
        assert forall|i1: int, j1: int, i2: int, j2: int|
            0 <= i1 < rest.len() && 0 <= i2 < rest.len() && 0 <= j1 < rest[i1].1.len() && 0 <= j2
                < rest[i2].1.len() && (i1 != i2 || j1 != j2) implies #[trigger] rest[i1].1[j1]
            != #[trigger] rest[i2].1[j2] by {
            assert(rest[i1] == s[i1 + 1] && rest[i2] == s[i2 + 1]);
        }
        lemma_flattened_distinct(rest);
        let f = a + b;
        assert forall|x: int, y: int| 0 <= x < f.len() && 0 <= y < f.len() && x != y implies f[x]
            != f[y] by {
            if x < a.len() && y < a.len() {
                assert(s[0].1[x] != s[0].1[y]);
            } else if x >= a.len() && y >= a.len() {
                assert(b[x - a.len()] != b[y - a.len()]);
            } else {
                let (p, q) = if x < a.len() {
                    (x, y)
                } else {
                    (y, x)
                };
                lemma_flattened_index(rest, q - a.len());
                let (i, j) = choose|i: int, j: int|
                    0 <= i < rest.len() && 0 <= j < rest[i].1.len() && b[q - a.len()]
                        == rest[i].1[j];
                assert(rest[i] == s[i + 1]);
                assert(s[0].1[p] != s[i + 1].1[j]);
            }
        }
    }
}

/// A map keyed by names, iterated in increasing order of name (the order of a
/// `BTreeMap<String, _>`).
pub struct NameMap<V> {
    entries: Vec<(String, V)>,
}

/// A map from names to witness lists.
pub type NamedWitnesses = NameMap<Vec<Witness>>;

pub open spec fn pair_view<V: View>(e: (String, V)) -> (Seq<char>, V::V) {
    (e.0@, e.1@)
}

impl<V: View> View for NameMap<V> {
    type V = Map<Seq<char>, V::V>;

    open spec fn view(&self) -> Map<Seq<char>, V::V> {
        assoc_map(self.pairs())
    }
}

impl<V: View> NameMap<V> {
    /// The entries, in the order of iteration.
    pub closed spec fn pairs(&self) -> Seq<(Seq<char>, V::V)> {
        self.entries@.map_values(|e: (String, V)| pair_view(e))
    }

    pub open spec fn well_formed(&self) -> bool {
        keys_sorted(self.pairs())
    }

    pub fn new() -> (m: Self)
        ensures
            m.well_formed(),
            m.pairs() == Seq::<(Seq<char>, V::V)>::empty(),
            m@ == Map::<Seq<char>, V::V>::empty(),
    {
        let m = NameMap { entries: Vec::new() };
        assert(m.pairs() =~= Seq::<(Seq<char>, V::V)>::empty());
        assert(m@ =~= Map::<Seq<char>, V::V>::empty());
        m
    }

    /// The entries, in increasing order of name.
    pub fn as_vec(&self) -> (v: &Vec<(String, V)>)
        ensures
            v@.map_values(|e: (String, V)| pair_view(e)) == self.pairs(),
    {
        &self.entries
    }

    pub fn len(&self) -> (n: usize)
        ensures
            n == self.pairs().len(),
    {
        self.entries.len()
    }

    /// Inserts or replaces the value recorded under `name`, as `BTreeMap::insert` does.
    pub fn insert(&mut self, name: String, value: V)
        requires
            old(self).well_formed(),
        ensures
            final(self).well_formed(),
            final(self)@ == old(self)@.insert(name@, value@),
    {
        let ghost s = self.pairs();
        let mut i: usize = 0;
        while i < self.entries.len() && str_less(&self.entries[i].0, &name)
            invariant
                s == self.pairs(),
                keys_sorted(s),
                i <= self.entries@.len(),
                forall|j: int| 0 <= j < i ==> str_lt(#[trigger] s[j].0, name@),
            decreases self.entries@.len() - i,
        {
            i = i + 1;
        }
        if i < self.entries.len() && self.entries[i].0 == name {
            let ghost k = s[i as int].0;
            let ghost v = value@;
            self.entries.set(i, (name, value));
            proof {
                assert(self.pairs() =~= s.update(i as int, (k, v)));
                lemma_replace(s, i as int, v);
            }
        } else {
            let ghost k = name@;
            let ghost v = value@;
            proof {
                if i < s.len() {
                    lemma_str_lt_total(s[i as int].0, k);
                    assert(str_lt(k, s[i as int].0));
                    assert forall|j: int| i <= j < s.len() implies str_lt(k, #[trigger] s[j].0) by {
                        if j > i {
                            lemma_str_lt_transitive(k, s[i as int].0, s[j].0);
                        }
                    }
                }
            }
            self.entries.insert(i, (name, value));
            proof {
                assert(self.pairs() =~= s.insert(i as int, (k, v)));
                lemma_insert_new(s, i as int, k, v);
            }
        }
    }
}

impl NameMap<Vec<Witness>> {
    /// The witnesses of all entries, concatenated in increasing order of name.
    pub fn flattened_values(&self) -> (ws: Vec<Witness>)
        ensures
            ws@ == flattened(self.pairs()),
    {
        let ghost s = self.pairs();
        let mut out: Vec<Witness> = Vec::new();
        let mut i: usize = 0;
        assert(s.take(0).map_values(|e: (Seq<char>, Seq<Witness>)| e.1) =~= Seq::<
            Seq<Witness>,
        >::empty());
        while i < self.entries.len()
            invariant
                s == self.pairs(),
                i <= self.entries@.len(),
                out@ == flattened(s.take(i as int)),
            decreases self.entries@.len() - i,
        {
            let ws = &self.entries[i].1;
            let ghost before = out@;
            let mut j: usize = 0;
            while j < ws.len()
                invariant
                    j <= ws@.len(),
                    out@ == before + ws@.take(j as int),
                decreases ws@.len() - j,
            {
                out.push(ws[j]);
                assert(ws@.take(j + 1) =~= ws@.take(j as int).push(ws@[j as int]));
                j = j + 1;
            }
            proof {
                let a = s.take(i as int).map_values(|e: (Seq<char>, Seq<Witness>)| e.1);
                let b = s.take(i + 1).map_values(|e: (Seq<char>, Seq<Witness>)| e.1);
                assert(s[i as int].1 == ws@);
                assert(b =~= a.push(ws@));
                a.lemma_flatten_push(ws@);
                assert(ws@.take(ws@.len() as int) =~= ws@);
            }
            i = i + 1;
        }
        assert(s.take(s.len() as int) =~= s);
        out
    }
}

} // verus!
