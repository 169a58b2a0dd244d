use vstd::laws_eq::obeys_view_eq;
use vstd::prelude::*;

verus! {

/// A map of lists is seen as one entry per key, in order of first insertion, each with the
/// values inserted under that key, in order. No key has two entries.
pub open spec fn keys_unique<KV, V>(m: Seq<(KV, Seq<V>)>) -> bool {
    forall|i: int, j: int| 0 <= i < j < m.len() ==> m[i].0 != m[j].0
}

pub open spec fn has_key<KV, V>(m: Seq<(KV, Seq<V>)>, k: KV) -> bool {
    exists|i: int| 0 <= i < m.len() && m[i].0 == k
}

/// Appends `v` to the list of `k`, opening a new entry at the end when `k` is not present yet.
pub open spec fn map_insert<KV, V>(m: Seq<(KV, Seq<V>)>, k: KV, v: V) -> Seq<(KV, Seq<V>)> {
    if has_key(m, k) {
        let i = choose|i: int| 0 <= i < m.len() && m[i].0 == k;
        m.update(i, (k, m[i].1.push(v)))
    } else {
        m.push((k, seq![v]))
    }
}

pub proof fn lemma_map_insert_keeps_keys_unique<KV, V>(m: Seq<(KV, Seq<V>)>, k: KV, v: V)
    requires
        keys_unique(m),
    ensures
        keys_unique(map_insert(m, k, v)),
        has_key(map_insert(m, k, v), k),
{
    if has_key(m, k) {
        let i = choose|i: int| 0 <= i < m.len() && m[i].0 == k;
        assert(map_insert(m, k, v)[i].0 == k);
    } else {
        assert(map_insert(m, k, v)[m.len() as int].0 == k);
    }
}

pub proof fn lemma_map_insert_cases<KV, V>(m: Seq<(KV, Seq<V>)>, k: KV, v: V)
    ensures
        has_key(m, k) ==> exists|i: int|
            0 <= i < m.len() && m[i].0 == k && map_insert(m, k, v) == m.update(i, (k, m[i].1.push(v))),
        !has_key(m, k) ==> map_insert(m, k, v) == m.push((k, seq![v])),
{
    if has_key(m, k) {
        let i = choose|i: int| 0 <= i < m.len() && m[i].0 == k;
        assert(map_insert(m, k, v) == m.update(i, (k, m[i].1.push(v))));
    }
}

/// A map from keys to lists of values that keeps its keys in order of first insertion.
pub struct HashMapVec<K, V> {
    entries: Vec<(K, Vec<V>)>,
}

impl<K: View, V: View> View for HashMapVec<K, V> {
    type V = Seq<(K::V, Seq<V::V>)>;

    closed spec fn view(&self) -> Seq<(K::V, Seq<V::V>)> {
        self.entries@.map_values(|e: (K, Vec<V>)| (e.0@, e.1@.map_values(|v: V| v@)))
    }
}

impl<K: View + PartialEq, V: View> HashMapVec<K, V> {
    pub open spec fn wf(&self) -> bool {
        keys_unique(self@)
    }

    pub fn new() -> (r: Self)
        ensures
            r.wf(),
            r@ == Seq::<(K::V, Seq<V::V>)>::empty(),
    {
        let r = HashMapVec { entries: Vec::new() };
        assert(r@ =~= Seq::<(K::V, Seq<V::V>)>::empty());
        r
    }

    /// Appends `value` to the list of `key`.
    pub fn insert(&mut self, key: K, value: V)
        requires
            old(self).wf(),
            obeys_view_eq::<K>(),
        ensures
            final(self).wf(),
            final(self)@ == map_insert(old(self)@, key@, value@),
    {
        proof {
            lemma_map_insert_keeps_keys_unique(self@, key@, value@);
            reveal(obeys_view_eq);
        }
        let n = self.entries.len();
        let mut i: usize = 0;
        while i < n
            invariant
                n == self.entries.len(),
                self@ == old(self)@,
                keys_unique(self@),
                i <= n,
                obeys_view_eq::<K>(),
                forall|j: int| 0 <= j < i ==> self@[j].0 != key@,
            decreases n - i,
        {
            if self.entries[i].0 == key {
                proof {
                    reveal(obeys_view_eq);
                    assert(self@[i as int].0 == key@);
                }
                let ghost before = self@;
                self.entries[i].1.push(value);
                proof {
                    assert(self.entries@[i as int].1@.map_values(|v: V| v@) =~= before[i as int].1.push(value@));
                    let c = choose|c: int| 0 <= c < before.len() && before[c].0 == key@;
                    assert(before[c].0 == before[i as int].0);
                    assert(c == i);
                    assert(self@ =~= map_insert(before, key@, value@));
                }
                return;
            }
            proof {
                reveal(obeys_view_eq);
            }
            i += 1;
        }
        let ghost before = self@;
        assert(!has_key(before, key@));
        let mut list: Vec<V> = Vec::new();
        list.push(value);
        self.entries.push((key, list));
        assert(list@.map_values(|v: V| v@) =~= seq![value@]);
        assert(self@ =~= map_insert(before, key@, value@));
    }

    /// The entries, in order of first insertion.
    pub fn entries(&self) -> (r: &Vec<(K, Vec<V>)>)
        ensures
            r@.map_values(|e: (K, Vec<V>)| (e.0@, e.1@.map_values(|v: V| v@))) == self@,
    {
        &self.entries
    }
}

} // verus!
