//! Interning of byte strings: equal contents always get the same identifier.
use vstd::prelude::*;

verus! {

/// The identifier and table that interning `v` into `table` gives: the index of
/// an equal entry where there is one, else a new entry at the end.
pub open spec fn intern_spec(table: Seq<Seq<u8>>, v: Seq<u8>) -> (Seq<Seq<u8>>, nat) {
    if exists|i: int| 0 <= i < table.len() && table[i] == v {
        (table, (choose|i: int| 0 <= i < table.len() && table[i] == v) as nat)
    } else {
        (table.push(v), table.len())
    }
}

/// No two entries of `table` are equal.
pub open spec fn distinct_entries(table: Seq<Seq<u8>>) -> bool {
    forall|i: int, j: int| 0 <= i < j < table.len() ==> table[i] != table[j]
}

/// An interning table of byte strings.
pub struct Interner {
    cache: Vec<Vec<u8>>,
}

impl View for Interner {
    type V = Seq<Seq<u8>>;

    closed spec fn view(&self) -> Seq<Seq<u8>> {
        self.cache@.map_values(|e: Vec<u8>| e@)
    }
}

impl Interner {
    /// The table's invariant: its entries are distinct.
    pub closed spec fn wf(&self) -> bool {
        distinct_entries(self@)
    }

    /// An empty table.
    pub fn new() -> (r: Self)
        ensures
            r.wf(),
            r@ == Seq::<Seq<u8>>::empty(),
    {
        let r = Interner { cache: Vec::new() };
        assert(r@ == Seq::<Seq<u8>>::empty());
        r
    }

    /// The identifier of `value`: the existing one for equal contents, else a
    /// new one.
    pub fn intern(&mut self, value: &[u8]) -> (id: usize)
        requires
            old(self).wf(),
        ensures
            final(self).wf(),
            (final(self)@, id as nat) == intern_spec(old(self)@, value@),
            id < final(self)@.len(),
            final(self)@[id as int] == value@,
    {
        let ghost t = self@;
        let mut i: usize = 0;
        while i < self.cache.len()
            invariant
                i <= self.cache@.len(),
                t == self@,
                distinct_entries(t),
                forall|k: int| 0 <= k < i ==> t[k] != value@,
            decreases self.cache@.len() - i,
        {
            let entry = &self.cache[i];
            let mut same = entry.len() == value.len();
            let mut j: usize = 0;
            while same && j < value.len()
                invariant
                    j <= value@.len(),
                    same ==> entry@.len() == value@.len(),
                    same ==> forall|k: int| 0 <= k < j ==> entry@[k] == value@[k],
                    !same ==> entry@ != value@,
                decreases value@.len() - j,
            {
                if entry[j] != value[j] {
                    same = false;
                }
                j = j + 1;
            }
            assert(t[i as int] == entry@);
            if same {
                assert(entry@ == value@);
                proof {
                    let c = choose|k: int| 0 <= k < t.len() && t[k] == value@;
                    assert(t[c] == t[i as int]);
                }
                return i;
            }
            i = i + 1;
        }
        let mut copy: Vec<u8> = Vec::new();
        let mut j: usize = 0;
        while j < value.len()
            invariant
                j <= value@.len(),
                copy@ == value@.take(j as int),
            decreases value@.len() - j,
        {
            copy.push(value[j]);
            j = j + 1;
            assert(copy@ == value@.take(j as int));
        }
        assert(value@.take(j as int) == value@);
        let id = self.cache.len();
        self.cache.push(copy);
        assert(self@ == t.push(value@));
        id
    }

    /// The contents interned under `id`.
    pub fn get(&self, id: usize) -> (r: &[u8])
        requires
            id < self@.len(),
        ensures
            r@ == self@[id as int],
    {
        self.cache[id].as_slice()
    }

    /// How many distinct contents were interned.
    pub fn len(&self) -> (r: usize)
        ensures
            r == self@.len(),
    {
        self.cache.len()
    }
}

/// Interning is stable: interning equal contents again returns the same
/// identifier and leaves the table as it was.
pub proof fn law_intern_stable(table: Seq<Seq<u8>>, v: Seq<u8>)
    requires
        distinct_entries(table),
    ensures
        ({
            let (t1, id1) = intern_spec(table, v);
            let (t2, id2) = intern_spec(t1, v);
            t2 == t1 && id2 == id1 && t1[id1 as int] == v && distinct_entries(t1)
        }),
{
    let (t1, id1) = intern_spec(table, v);
    if exists|i: int| 0 <= i < table.len() && table[i] == v {
    } else {
        assert(t1[table.len() as int] == v);
        assert(exists|i: int| 0 <= i < t1.len() && t1[i] == v);
        let c = choose|i: int| 0 <= i < t1.len() && t1[i] == v;
        if c < table.len() {
            assert(table[c] == v);
        }
    }
}

/// Different contents get different identifiers.
pub proof fn law_intern_distinct(table: Seq<Seq<u8>>, a: Seq<u8>, b: Seq<u8>)
    requires
        distinct_entries(table),
        a != b,
    ensures
        ({
            let (t1, ia) = intern_spec(table, a);
            let (t2, ib) = intern_spec(t1, b);
            ia != ib && t2[ia as int] == a && t2[ib as int] == b
        }),
{
    let (t1, ia) = intern_spec(table, a);
    law_intern_stable(table, a);
    let (t2, ib) = intern_spec(t1, b);
    law_intern_stable(t1, b);
    if exists|i: int| 0 <= i < t1.len() && t1[i] == b {
    } else {
        assert(t2 == t1.push(b));
    }
}

} // verus!
