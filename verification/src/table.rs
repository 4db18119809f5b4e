//! A table from byte strings to byte strings: what a download has fetched so
//! far, found again by chunk address.

use std::collections::HashMap;
use vstd::prelude::*;

use crate::bytes::{read_le64, same_bytes};

verus! {

/// The number by which a key is looked up: its first eight bytes, or zero
/// where it has fewer.
pub open spec fn bucket_of(key: Seq<u8>) -> u64 {
    if key.len() >= 8 {
        crate::bytes::le_value(key.take(8)) as u64
    } else {
        0
    }
}

/// A map keyed by byte strings. Entries stay in the order in which their keys
/// were first inserted; an index by bucket finds them.
pub struct ByteTable {
    entries: Vec<(Vec<u8>, Vec<u8>)>,
    index: HashMap<u64, Vec<usize>>,
    model: Ghost<Map<Seq<u8>, Seq<u8>>>,
}

impl View for ByteTable {
    type V = Map<Seq<u8>, Seq<u8>>;

    closed spec fn view(&self) -> Map<Seq<u8>, Seq<u8>> {
        self.model@
    }
}

fn bucket(key: &[u8]) -> (b: u64)
    ensures
        b == bucket_of(key@),
{
    if key.len() >= 8 {
        read_le64(key)
    } else {
        0
    }
}

impl ByteTable {
    spec fn key(self, i: int) -> Seq<u8> {
        self.entries@[i].0@
    }

    /// The index and the entries agree, no key occurs twice, and the entries
    /// are exactly the mapping that the table stands for.
    pub closed spec fn wf(self) -> bool {
        &&& self.model@.dom().finite()
        &&& self.model@.dom().len() == self.entries@.len()
        &&& forall|i: int|
            0 <= i < self.entries@.len() ==> #[trigger] self.model@.contains_key(self.key(i))
                && self.model@[self.key(i)] == self.entries@[i].1@
        &&& forall|k: Seq<u8>| #[trigger]
            self.model@.contains_key(k) ==> exists|i: int|
                0 <= i < self.entries@.len() && self.key(i) == k
        &&& forall|i: int, j: int|
            0 <= i < j < self.entries@.len() ==> self.key(i) != self.key(j)
        &&& forall|b: u64, p: int|
            #![trigger self.index@[b]@[p]]
            self.index@.contains_key(b) && 0 <= p < self.index@[b]@.len() ==> {
                &&& self.index@[b]@[p] < self.entries@.len()
                &&& bucket_of(self.key(self.index@[b]@[p] as int)) == b
            }
        &&& forall|i: int|
            #![trigger self.key(i)]
            0 <= i < self.entries@.len() ==> {
                &&& self.index@.contains_key(bucket_of(self.key(i)))
                &&& self.lists(bucket_of(self.key(i)), i)
            }
    }

    /// Bucket `b` names the entry at `i`.
    spec fn lists(self, b: u64, i: int) -> bool {
        exists|q: int| 0 <= q < self.index@[b]@.len() && #[trigger] self.index@[b]@[q] as int == i
    }

    /// An empty table.
    pub fn new() -> (t: Self)
        ensures
            t.wf(),
            t@ == Map::<Seq<u8>, Seq<u8>>::empty(),
    {
        ByteTable { entries: Vec::new(), index: HashMap::new(), model: Ghost(Map::empty()) }
    }

    /// The number of keys in the table.
    pub fn len(&self) -> (n: usize)
        requires
            self.wf(),
        ensures
            n == self@.dom().len(),
    {
        self.entries.len()
    }

    /// The position of `key` among the entries.
    fn position(&self, key: &[u8]) -> (at: Option<usize>)
        requires
            self.wf(),
        ensures
            match at {
                Some(i) => i < self.entries@.len() && self.key(i as int) == key@,
                None => !self@.contains_key(key@),
            },
    {
        let b: u64 = bucket(key);
        match self.index.get(&b) {
            None => {
                assert(forall|i: int| 0 <= i < self.entries@.len() ==> self.key(i) != key@);
                None
            },
            Some(slots) => {
                let mut p: usize = 0;
                while p < slots.len()
                    invariant
                        self.wf(),
                        b == bucket_of(key@),
                        self.index@.contains_key(b),
                        *slots == self.index@[b],
                        p <= slots.len(),
                        forall|q: int| 0 <= q < p ==> self.key(#[trigger] slots@[q] as int) != key@,
                    decreases slots.len() - p,
                {
                    let i: usize = slots[p];
                    assert(self.index@[b]@[p as int] < self.entries@.len());
                    if same_bytes(self.entries[i].0.as_slice(), key) {
                        return Some(i);
                    }
                    p = p + 1;
                }
                assert forall|i: int| 0 <= i < self.entries@.len() implies self.key(i) != key@ by {
                    if self.key(i) == key@ {
                        assert(self.lists(b, i));
                        let q = choose|q: int|
                            0 <= q < self.index@[b]@.len() && #[trigger] self.index@[b]@[q] as int
                                == i;
                        assert(slots@[q] as int == i);
                    }
                }
                None
            },
        }
    }

    /// What the table holds for `key`.
    pub fn get(&self, key: &[u8]) -> (v: Option<&Vec<u8>>)
        requires
            self.wf(),
        ensures
            match v {
                Some(found) => self@.contains_key(key@) && found@ == self@[key@],
                None => !self@.contains_key(key@),
            },
    {
        match self.position(key) {
            Some(i) => {
                assert(self.model@.contains_key(self.key(i as int)));
                Some(&self.entries[i].1)
            },
            None => None,
        }
    }

    /// Maps `key` to `value`, in place of what it was mapped to before.
    pub fn insert(&mut self, key: Vec<u8>, value: Vec<u8>)
        requires
            old(self).wf(),
        ensures
            final(self).wf(),
            final(self)@ == old(self)@.insert(key@, value@),
    {
        let ghost before = *self;
        let ghost k = key@;
        let ghost v = value@;
        match self.position(key.as_slice()) {
            Some(i) => {
                self.entries.set(i, (key, value));
                self.model = Ghost(self.model@.insert(k, v));
                proof {
                    assert(before.model@.contains_key(before.key(i as int)));
                    assert(self.model@.dom() =~= before.model@.dom());
                    assert forall|j: int| 0 <= j < self.entries@.len() implies self.key(j)
                        == before.key(j) by {}
                    assert forall|j: int| 0 <= j < self.entries@.len() implies {
                        &&& #[trigger] self.model@.contains_key(self.key(j))
                        &&& self.model@[self.key(j)] == self.entries@[j].1@
                    } by {
                        assert(before.model@.contains_key(before.key(j)));
                        if j != i {
                            assert(before.key(j) != before.key(i as int));
                        }
                    }
                    assert forall|j: int, l: int| 0 <= j < l < self.entries@.len() implies self.key(
                        j,
                    ) != self.key(l) by {
                        assert(before.key(j) != before.key(l));
                    }
                    assert forall|j: int|
                        #![trigger self.key(j)]
                        0 <= j < self.entries@.len() implies {
                        &&& self.index@.contains_key(bucket_of(self.key(j)))
                        &&& self.lists(bucket_of(self.key(j)), j)
                    } by {
                        assert(before.lists(bucket_of(before.key(j)), j));
                    }
                    assert forall|x: Seq<u8>| #[trigger] self.model@.contains_key(x) implies exists|
                        j: int,
                    |
                        0 <= j < self.entries@.len() && self.key(j) == x by {
                        let j = choose|j: int|
                            0 <= j < before.entries@.len() && before.key(j) == x;
                        assert(self.key(j) == x);
                    }
                }
            },
            None => {
                let b: u64 = bucket(key.as_slice());
                let n: usize = self.entries.len();
                let mut slots = match self.index.remove(&b) {
                    Some(found) => found,
                    None => Vec::new(),
                };
                let ghost old_slots = slots@;
                slots.push(n);
                self.index.insert(b, slots);
                self.entries.push((key, value));
                self.model = Ghost(self.model@.insert(k, v));
                proof {
                    assert forall|j: int| 0 <= j < n implies self.key(j) == before.key(j) by {}
                    assert(self.key(n as int) == k);
                    assert forall|j: int| 0 <= j < self.entries@.len() implies {
                        &&& #[trigger] self.model@.contains_key(self.key(j))
                        &&& self.model@[self.key(j)] == self.entries@[j].1@
                    } by {
                        if j < n {
                            assert(before.model@.contains_key(before.key(j)));
                        }
                    }
                    assert forall|x: Seq<u8>| #[trigger] self.model@.contains_key(x) implies exists|
                        j: int,
                    |
                        0 <= j < self.entries@.len() && self.key(j) == x by {
                        if x == k {
                            assert(self.key(n as int) == x);
                        } else {
                            assert(before.model@.contains_key(x));
                            let j = choose|j: int|
                                0 <= j < before.entries@.len() && before.key(j) == x;
                            assert(self.key(j) == x);
                        }
                    }
                    assert forall|i: int, j: int| 0 <= i < j < self.entries@.len() implies self.key(
                        i,
                    ) != self.key(j) by {
                        assert(before.model@.contains_key(before.key(i)));
                        if j < n {
                            assert(before.key(i) != before.key(j));
                        }
                    }
                    assert forall|c: u64, p: int|
                        #![trigger self.index@[c]@[p]]
                        self.index@.contains_key(c) && 0 <= p < self.index@[c]@.len() implies {
                        &&& self.index@[c]@[p] < self.entries@.len()
                        &&& bucket_of(self.key(self.index@[c]@[p] as int)) == c
                    } by {
                        if c == b {
                            if p < old_slots.len() {
                                assert(before.index@[b]@[p] == self.index@[c]@[p]);
                            }
                        } else {
                            assert(before.index@[c]@[p] == self.index@[c]@[p]);
                        }
                    }
                    assert forall|i: int|
                        #![trigger self.key(i)]
                        0 <= i < self.entries@.len() implies {
                        &&& self.index@.contains_key(bucket_of(self.key(i)))
                        &&& self.lists(bucket_of(self.key(i)), i)
                    } by {
                        if i < n {
                            let c = bucket_of(before.key(i));
                            assert(before.lists(c, i));
                            let q = choose|q: int|
                                0 <= q < before.index@[c]@.len()
                                    && #[trigger] before.index@[c]@[q] as int == i;
                            assert(self.index@[c]@[q] as int == i);
                        } else {
                            assert(self.index@[b]@[old_slots.len() as int] as int == i);
                        }
                    }
                }
            },
        }
    }
}

/// What is put into a table is there, in place of what was there under its key, and all
/// else stays; a new table holds nothing, and as many keys are counted as there are.
pub proof fn what_is_put_is_there(
    t: &mut ByteTable,
    key: Vec<u8>,
    value: Vec<u8>,
    empty: ByteTable,
    other: Seq<u8>,
)
    requires
        call_ensures(ByteTable::insert, (t, key, value), ()),
        call_ensures(ByteTable::new, (), empty),
    ensures
        final(t)@.contains_key(key@),
        final(t)@[key@] == value@,
        other != key@ ==> final(t)@.contains_key(other) == old(t)@.contains_key(other),
        other != key@ && old(t)@.contains_key(other) ==> final(t)@[other] == old(t)@[other],
        !empty@.contains_key(other),
{
}

/// A table gives what it holds under a key, and nothing where it holds nothing.
pub proof fn what_is_there_is_given(t: &ByteTable, key: &[u8], v: Option<&Vec<u8>>, n: usize)
    requires
        call_ensures(ByteTable::get, (t, key), v),
        call_ensures(ByteTable::len, (t,), n),
    ensures
        v is Some <==> t@.contains_key(key@),
        v matches Some(found) ==> found@ == t@[key@],
        n == t@.dom().len(),
{
}

} // verus!
