use vstd::prelude::*;
use crate::text::same_text;

verus! {

/// The map that `keys` and `vals` spell out, entry by entry; a later entry
/// wins over an earlier one with the same key.
pub open spec fn map_of<V>(keys: Seq<String>, vals: Seq<V>) -> Map<Seq<char>, V>
    decreases keys.len(),
{
    if keys.len() == 0 {
        Map::empty()
    } else {
        map_of(keys.drop_last(), vals).insert(keys.last()@, vals[keys.len() - 1])
    }
}

/// No key stands twice.
pub open spec fn unique_keys(keys: Seq<String>) -> bool {
    forall|i: int, j: int| 0 <= i < keys.len() && 0 <= j < keys.len() && i != j ==> keys[i]@ != keys[j]@
}

proof fn lemma_map_of_contains<V>(keys: Seq<String>, vals: Seq<V>, k: Seq<char>)
    ensures
        map_of(keys, vals).contains_key(k) <==> exists|i: int| 0 <= i < keys.len() && keys[i]@ == k,
    decreases keys.len(),
{
    if keys.len() > 0 {
        lemma_map_of_contains(keys.drop_last(), vals, k);
        if map_of(keys, vals).contains_key(k) && k != keys.last()@ {
            let i = choose|i: int| 0 <= i < keys.len() - 1 && keys.drop_last()[i]@ == k;
            assert(keys[i]@ == k);
        }
        if exists|i: int| 0 <= i < keys.len() && keys[i]@ == k {
            let i = choose|i: int| 0 <= i < keys.len() && keys[i]@ == k;
            if i < keys.len() - 1 {
                assert(keys.drop_last()[i]@ == k);
            }
        }
    }
}

proof fn lemma_map_of_value<V>(keys: Seq<String>, vals: Seq<V>, i: int)
    requires
        unique_keys(keys),
        0 <= i < keys.len(),
    ensures
        map_of(keys, vals).contains_key(keys[i]@),
        map_of(keys, vals)[keys[i]@] == vals[i],
    decreases keys.len(),
{
    if i < keys.len() - 1 {
        let d = keys.drop_last();
        assert(d[i] == keys[i]);
        assert(unique_keys(d)) by {
            assert forall|a: int, b: int| 0 <= a < d.len() && 0 <= b < d.len() && a != b implies d[a]@ != d[b]@ by {
                assert(d[a] == keys[a] && d[b] == keys[b]);
            }
        }
        lemma_map_of_value(d, vals, i);
        assert(keys[i]@ != keys[keys.len() - 1]@);
    }
}

proof fn lemma_map_of_vals_prefix<V>(keys: Seq<String>, vals: Seq<V>, more: Seq<V>)
    requires
        keys.len() <= vals.len() <= more.len(),
        forall|i: int| 0 <= i < vals.len() ==> vals[i] == more[i],
    ensures
        map_of(keys, vals) == map_of(keys, more),
    decreases keys.len(),
{
    if keys.len() > 0 {
        lemma_map_of_vals_prefix(keys.drop_last(), vals, more);
    }
}

/// A table from text keys to values, each key at most once.
pub struct Table<V> {
    keys: Vec<String>,
    vals: Vec<V>,
}

impl<V> Table<V> {
    /// One value per key, and no key twice.
    pub closed spec fn wf(&self) -> bool {
        self.keys.len() == self.vals.len() && unique_keys(self.keys@)
    }

    /// The table as a map from key text to value.
    pub closed spec fn view(&self) -> Map<Seq<char>, V> {
        map_of(self.keys@, self.vals@)
    }

    pub fn new() -> (t: Self)
        ensures
            t.wf(),
            t.view() == Map::<Seq<char>, V>::empty(),
    {
        Table { keys: Vec::new(), vals: Vec::new() }
    }

    fn index_of(&self, k: &str) -> (r: Option<usize>)
        requires
            self.wf(),
        ensures
            match r {
                Some(i) => i < self.keys.len() && self.keys@[i as int]@ == k@
                    && self.view().contains_key(k@) && self.view()[k@] == self.vals@[i as int],
                None => !self.view().contains_key(k@),
            },
    {
        let mut i: usize = 0;
        while i < self.keys.len()
            invariant
                self.wf(),
                i <= self.keys.len(),
                forall|j: int| 0 <= j < i ==> self.keys@[j]@ != k@,
            decreases self.keys.len() - i,
        {
            if same_text(self.keys[i].as_str(), k) {
                proof {
                    lemma_map_of_value(self.keys@, self.vals@, i as int);
                }
                return Some(i);
            }
            i += 1;
        }
        proof {
            lemma_map_of_contains(self.keys@, self.vals@, k@);
        }
        None
    }

    /// Whether the table holds `k`.
    pub fn contains(&self, k: &str) -> (r: bool)
        requires
            self.wf(),
        ensures
            r == self.view().contains_key(k@),
    {
        self.index_of(k).is_some()
    }

    /// Takes the entry of `k` out of the table.
    pub fn remove(&mut self, k: &str) -> (r: Option<V>)
        requires
            old(self).wf(),
        ensures
            final(self).wf(),
            final(self).view() == old(self).view().remove(k@),
            match r {
                Some(v) => old(self).view().contains_key(k@) && v == old(self).view()[k@],
                None => !old(self).view().contains_key(k@),
            },
    {
        match self.index_of(k) {
            Some(i) => {
                let ghost ok = self.keys@;
                let ghost ov = self.vals@;
                let ghost om = self.view();
                self.keys.remove(i);
                let v = self.vals.remove(i);
                proof {
                    let nk = self.keys@;
                    assert(nk == ok.remove(i as int));
                    assert forall|a: int| 0 <= a < nk.len() implies (if a < i { nk[a] == ok[a] } else { nk[a] == ok[a + 1] }) by {}
                    assert forall|a: int| 0 <= a < nk.len() implies (if a < i { self.vals@[a] == ov[a] } else { self.vals@[a] == ov[a + 1] }) by {}
                    assert(unique_keys(nk)) by {
                        assert forall|a: int, b: int| 0 <= a < nk.len() && 0 <= b < nk.len() && a != b implies nk[a]@ != nk[b]@ by {
                            let oa = if a < i { a } else { a + 1 };
                            let ob = if b < i { b } else { b + 1 };
                            assert(nk[a] == ok[oa] && nk[b] == ok[ob]);
                        }
                    }
                    assert forall|x: Seq<char>| #[trigger] self.view().contains_key(x) <==> om.remove(k@).contains_key(x) by {
                        lemma_map_of_contains(nk, self.vals@, x);
                        lemma_map_of_contains(ok, ov, x);
                        if om.contains_key(x) && x != k@ {
                            let j = choose|j: int| 0 <= j < ok.len() && ok[j]@ == x;
                            assert(j != i);
                            let nj = if j < i { j } else { j - 1 };
                            assert(nk[nj] == ok[j]);
                        }
                        if self.view().contains_key(x) {
                            let j = choose|j: int| 0 <= j < nk.len() && nk[j]@ == x;
                            let oj = if j < i { j } else { j + 1 };
                            assert(nk[j] == ok[oj]);
                        }
                    }
                    assert forall|x: Seq<char>| #[trigger] self.view().contains_key(x) implies self.view()[x] == om[x] by {
                        lemma_map_of_contains(nk, self.vals@, x);
                        let j = choose|j: int| 0 <= j < nk.len() && nk[j]@ == x;
                        let oj = if j < i { j } else { j + 1 };
                        assert(nk[j] == ok[oj]);
                        lemma_map_of_value(nk, self.vals@, j);
                        lemma_map_of_value(ok, ov, oj);
                    }
                    assert(self.view() =~= om.remove(k@));
                }
                Some(v)
            },
            None => {
                assert(self.view() =~= self.view().remove(k@));
                None
            },
        }
    }

    /// Puts `v` under `k`, in place of what `k` held before.
    pub fn insert(&mut self, k: String, v: V)
        requires
            old(self).wf(),
        ensures
            final(self).wf(),
            final(self).view() == old(self).view().insert(k@, v),
    {
        let _ = self.remove(k.as_str());
        let ghost mid = self.view();
        let ghost mk = self.keys@;
        let ghost mv = self.vals@;
        proof {
            lemma_map_of_contains(self.keys@, self.vals@, k@);
        }
        self.keys.push(k);
        self.vals.push(v);
        proof {
            let n = self.keys@.len() - 1;
            assert(self.keys@.drop_last() =~= mk);
            lemma_map_of_vals_prefix(mk, mv, self.vals@);
            assert(self.keys@[n]@ == k@);
            assert forall|a: int| 0 <= a < n implies self.keys@[a] == mk[a] by {}
            assert(self.view() =~= mid.insert(k@, v));
        }
    }

    /// Empties the table.
    pub fn clear(&mut self)
        ensures
            final(self).wf(),
            final(self).view() == Map::<Seq<char>, V>::empty(),
    {
        self.keys = Vec::new();
        self.vals = Vec::new();
    }
}

} // verus!
