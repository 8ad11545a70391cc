use vstd::prelude::*;

verus! {

/// The index of the entry with key `k` in `s`, or -1 when there is none.
pub open spec fn cm_index<V>(s: Seq<((usize, usize), V)>, k: (usize, usize)) -> int {
    if exists|i: int| 0 <= i < s.len() && (#[trigger] s[i]).0 == k {
        choose|i: int| 0 <= i < s.len() && (#[trigger] s[i]).0 == k
    } else {
        -1
    }
}

/// `s` with the value of key `k` set to `v`: in place when `k` is there,
/// appended otherwise.
pub open spec fn cm_insert<V>(s: Seq<((usize, usize), V)>, k: (usize, usize), v: V) -> Seq<((usize, usize), V)> {
    let i = cm_index(s, k);
    if i >= 0 {
        s.update(i, (k, v))
    } else {
        s.push((k, v))
    }
}

/// `s` without the entry of key `k`.
pub open spec fn cm_remove<V>(s: Seq<((usize, usize), V)>, k: (usize, usize)) -> Seq<((usize, usize), V)> {
    let i = cm_index(s, k);
    if i >= 0 {
        s.remove(i)
    } else {
        s
    }
}

/// The value stored under `k`, if any.
pub open spec fn cm_get<V>(s: Seq<((usize, usize), V)>, k: (usize, usize)) -> Option<V> {
    let i = cm_index(s, k);
    if i >= 0 {
        Some(s[i].1)
    } else {
        None
    }
}

/// No key occurs twice.
pub open spec fn unique_keys<V>(s: Seq<((usize, usize), V)>) -> bool {
    forall|i: int, j: int| 0 <= i < s.len() && 0 <= j < s.len() && i != j ==> (#[trigger] s[i]).0 != (#[trigger] s[j]).0
}

/// A map from grid cells to values that keeps its entries in insertion order.
#[derive(Debug)]
pub struct CellMap<V> {
    entries: Vec<((usize, usize), V)>,
}

impl<V> View for CellMap<V> {
    type V = Seq<((usize, usize), V)>;

    closed spec fn view(&self) -> Seq<((usize, usize), V)> {
        self.entries@
    }
}

proof fn lemma_index_found<V>(s: Seq<((usize, usize), V)>, k: (usize, usize), i: int)
    requires
        unique_keys(s),
        0 <= i < s.len(),
        s[i].0 == k,
    ensures
        cm_index(s, k) == i,
{
}

proof fn lemma_index_missing<V>(s: Seq<((usize, usize), V)>, k: (usize, usize))
    requires
        forall|j: int| 0 <= j < s.len() ==> (#[trigger] s[j]).0 != k,
    ensures
        cm_index(s, k) == -1,
{
}

impl<V> CellMap<V> {
    #[verifier::type_invariant]
    closed spec fn keys_unique(self) -> bool {
        unique_keys(self.entries@)
    }
}

impl<V: Copy> CellMap<V> {
    pub fn new() -> (m: CellMap<V>)
        ensures
            m@ == Seq::<((usize, usize), V)>::empty(),
            unique_keys(m@),
    {
        CellMap { entries: Vec::new() }
    }

    fn find(&self, k: (usize, usize)) -> (r: Option<usize>)
        ensures
            match r {
                Some(i) => i < self@.len() && cm_index(self@, k) == i,
                None => cm_index(self@, k) == -1,
            },
    {
        proof {
            use_type_invariant(self);
        }
        let mut i: usize = 0;
        while i < self.entries.len()
            invariant
                i <= self.entries@.len(),
                unique_keys(self.entries@),
                forall|j: int| 0 <= j < i ==> (#[trigger] self.entries@[j]).0 != k,
            decreases self.entries@.len() - i,
        {
            let e = self.entries[i];
            if e.0.0 == k.0 && e.0.1 == k.1 {
                proof {
                    lemma_index_found(self.entries@, k, i as int);
                }
                return Some(i);
            }
            i = i + 1;
        }
        proof {
            lemma_index_missing(self.entries@, k);
        }
        None
    }

    /// The value stored under `k`, if any.
    pub fn get(&self, k: (usize, usize)) -> (r: Option<V>)
        ensures
            r == cm_get(self@, k),
    {
        match self.find(k) {
            Some(i) => Some(self.entries[i].1),
            None => None,
        }
    }

    /// Stores `v` under `k`, in place when `k` is already there.
    pub fn insert(&mut self, k: (usize, usize), v: V)
        ensures
            final(self)@ == cm_insert(old(self)@, k, v),
            unique_keys(final(self)@),
    {
        proof {
            use_type_invariant(&*self);
        }
        let found = self.find(k);
        let mut entries: Vec<((usize, usize), V)> = Vec::new();
        std::mem::swap(&mut entries, &mut self.entries);
        let ghost s = entries@;
        match found {
            Some(i) => {
                entries.set(i, (k, v));
                proof {
                    assert forall|a: int, b: int| 0 <= a < entries@.len() && 0 <= b < entries@.len() && a != b implies (#[trigger] entries@[a]).0 != (#[trigger] entries@[b]).0 by {
                        if a != i && b != i {
                            assert(entries@[a] == s[a] && entries@[b] == s[b]);
                        } else if a == i {
                            assert(entries@[b] == s[b]);
                            assert(s[i as int].0 == k);
                        } else {
                            assert(entries@[a] == s[a]);
                            assert(s[i as int].0 == k);
                        }
                    }
                }
            },
            None => {
                entries.push((k, v));
                proof {
                    assert forall|a: int, b: int| 0 <= a < entries@.len() && 0 <= b < entries@.len() && a != b implies (#[trigger] entries@[a]).0 != (#[trigger] entries@[b]).0 by {
                        if a < s.len() && b < s.len() {
                            assert(entries@[a] == s[a] && entries@[b] == s[b]);
                        } else if a == s.len() {
                            assert(entries@[b] == s[b]);
                        } else {
                            assert(entries@[a] == s[a]);
                        }
                    }
                }
            },
        }
        self.entries = entries;
    }

    /// Removes the entry of `k`, if any.
    pub fn remove(&mut self, k: (usize, usize))
        ensures
            final(self)@ == cm_remove(old(self)@, k),
            unique_keys(final(self)@),
    {
        proof {
            use_type_invariant(&*self);
        }
        let found = self.find(k);
        match found {
            Some(i) => {
                let mut entries: Vec<((usize, usize), V)> = Vec::new();
                std::mem::swap(&mut entries, &mut self.entries);
                let ghost s = entries@;
                entries.remove(i);
                proof {
                    assert forall|a: int, b: int| 0 <= a < entries@.len() && 0 <= b < entries@.len() && a != b implies (#[trigger] entries@[a]).0 != (#[trigger] entries@[b]).0 by {
                        let a2 = if a < i { a } else { a + 1 };
                        let b2 = if b < i { b } else { b + 1 };
                        assert(entries@[a] == s[a2]);
                        assert(entries@[b] == s[b2]);
                    }
                }
                self.entries = entries;
            },
            None => {},
        }
    }

    /// Removes every entry.
    pub fn clear(&mut self)
        ensures
            final(self)@ == Seq::<((usize, usize), V)>::empty(),
            unique_keys(final(self)@),
    {
        self.entries = Vec::new();
    }

    /// The entries, in order.
    pub fn to_vec(&self) -> (r: Vec<((usize, usize), V)>)
        ensures
            r@ == self@,
            unique_keys(r@),
    {
        proof {
            use_type_invariant(self);
        }
        let mut r: Vec<((usize, usize), V)> = Vec::new();
        let mut i: usize = 0;
        while i < self.entries.len()
            invariant
                i <= self.entries@.len(),
                r@ == self.entries@.subrange(0, i as int),
            decreases self.entries@.len() - i,
        {
            r.push(self.entries[i]);
            i = i + 1;
        }
        assert(r@ =~= self.entries@);
        r
    }
}

/// A read gives back what the last write under the same key stored, a
/// removed key reads as absent, and other keys are untouched by both.
pub proof fn lemma_cell_map_read_after_write<V>(s: Seq<((usize, usize), V)>, k: (usize, usize), v: V, k2: (usize, usize))
    requires
        unique_keys(s),
    ensures
        cm_get(cm_insert(s, k, v), k2) == (if k2 == k {
            Some(v)
        } else {
            cm_get(s, k2)
        }),
        cm_get(cm_remove(s, k), k2) == (if k2 == k {
            None
        } else {
            cm_get(s, k2)
        }),
        unique_keys(cm_insert(s, k, v)),
        unique_keys(cm_remove(s, k)),
{
    let i = cm_index(s, k);
    let j = cm_index(s, k2);
    if i >= 0 {
        let t = s.update(i, (k, v));
        assert forall|a: int, b: int| 0 <= a < t.len() && 0 <= b < t.len() && a != b implies (#[trigger] t[a]).0 != (#[trigger] t[b]).0 by {
            if a != i {
                assert(t[a] == s[a]);
            }
            if b != i {
                assert(t[b] == s[b]);
            }
        }
        lemma_index_found(t, k, i);
        if k2 != k && j >= 0 {
            assert(t[j] == s[j]);
            lemma_index_found(t, k2, j);
        } else if k2 != k {
            assert forall|a: int| 0 <= a < t.len() implies (#[trigger] t[a]).0 != k2 by {
                if a != i {
                    assert(t[a] == s[a]);
                }
            }
            lemma_index_missing(t, k2);
        }
        let r = s.remove(i);
        assert forall|a: int, b: int| 0 <= a < r.len() && 0 <= b < r.len() && a != b implies (#[trigger] r[a]).0 != (#[trigger] r[b]).0 by {
            let a2 = if a < i { a } else { a + 1 };
            let b2 = if b < i { b } else { b + 1 };
            assert(r[a] == s[a2]);
            assert(r[b] == s[b2]);
        }
        assert forall|a: int| 0 <= a < r.len() implies (#[trigger] r[a]).0 != k by {
            let a2 = if a < i { a } else { a + 1 };
            assert(r[a] == s[a2]);
        }
        lemma_index_missing(r, k);
        if k2 != k && j >= 0 {
            let j2 = if j < i { j } else { j - 1 };
            assert(r[j2] == s[j]);
            lemma_index_found(r, k2, j2);
        } else if k2 != k {
            assert forall|a: int| 0 <= a < r.len() implies (#[trigger] r[a]).0 != k2 by {
                let a2 = if a < i { a } else { a + 1 };
                assert(r[a] == s[a2]);
            }
            lemma_index_missing(r, k2);
        }
    } else {
        let t = s.push((k, v));
        assert(forall|a: int| 0 <= a < s.len() ==> (#[trigger] s[a]).0 != k);
        assert forall|a: int, b: int| 0 <= a < t.len() && 0 <= b < t.len() && a != b implies (#[trigger] t[a]).0 != (#[trigger] t[b]).0 by {
            if a < s.len() {
                assert(t[a] == s[a]);
            }
            if b < s.len() {
                assert(t[b] == s[b]);
            }
        }
        lemma_index_found(t, k, s.len() as int);
        if k2 != k && j >= 0 {
            assert(t[j] == s[j]);
            lemma_index_found(t, k2, j);
        } else if k2 != k {
            assert forall|a: int| 0 <= a < t.len() implies (#[trigger] t[a]).0 != k2 by {
                if a < s.len() {
                    assert(t[a] == s[a]);
                }
            }
            lemma_index_missing(t, k2);
        }
    }
}

} // verus!
