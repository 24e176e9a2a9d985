use vstd::prelude::*;

verus! {

use crate::labels::strings_view;
use crate::metrics::SEPARATOR_BYTE;

/// What fnv's 64-bit FNV-1a hasher returns for a byte stream.
pub uninterp spec fn fnv_hash(bytes: Seq<u8>) -> u64;

/// Relies on fnv::FnvHasher: the 64-bit FNV-1a digest of the bytes
/// written, a pure function of those bytes alone.
#[verifier::external_body]
fn fnv64(bytes: &Vec<u8>) -> (h: u64)
    ensures
        h == fnv_hash(bytes@),
{
    let mut hasher = fnv::FnvHasher::default();
    std::hash::Hasher::write(&mut hasher, bytes.as_slice());
    std::hash::Hasher::finish(&hasher)
}

/// One character as four bytes, least significant first.
pub open spec fn char_bytes(c: char) -> Seq<u8> {
    seq![
        (c as u32 % 256) as u8,
        (c as u32 / 256 % 256) as u8,
        (c as u32 / 65536 % 256) as u8,
        (c as u32 / 16777216 % 256) as u8,
    ]
}

/// The characters of one label value, each as four bytes.
pub open spec fn chars_bytes(s: Seq<char>) -> Seq<u8>
    decreases s.len(),
{
    if s.len() == 0 {
        Seq::empty()
    } else {
        chars_bytes(s.drop_last()) + char_bytes(s.last())
    }
}

/// One label value's bytes followed by the separator byte, so that no two
/// different tuples give the same stream.
pub open spec fn string_bytes(s: Seq<char>) -> Seq<u8> {
    chars_bytes(s).push(SEPARATOR_BYTE)
}

/// The byte stream of a whole label-value tuple.
pub open spec fn tuple_bytes(vals: Seq<Seq<char>>) -> Seq<u8>
    decreases vals.len(),
{
    if vals.len() == 0 {
        Seq::empty()
    } else {
        tuple_bytes(vals.drop_last()) + string_bytes(vals.last())
    }
}

/// The key under which a label-value tuple's child is stored: the FNV-1a
/// digest of the tuple's byte stream. A function of the ordered values
/// alone, so equal tuples always route to the same child.
pub open spec fn spec_hash_label_values(vals: Seq<Seq<char>>) -> u64 {
    fnv_hash(tuple_bytes(vals))
}

/// Hash an ordered tuple of label values into its child key.
pub fn hash_label_values(vals: &Vec<String>) -> (h: u64)
    ensures
        h == spec_hash_label_values(strings_view(vals@)),
{
    let ghost vv = strings_view(vals@);
    let mut bytes: Vec<u8> = Vec::new();
    let mut i: usize = 0;
    while i < vals.len()
        invariant
            0 <= i <= vals@.len(),
            vv == strings_view(vals@),
            vv.len() == vals@.len(),
            bytes@ == tuple_bytes(vv.subrange(0, i as int)),
        decreases vals@.len() - i,
    {
        let s = vals[i].as_str();
        let n = s.unicode_len();
        let mut j: usize = 0;
        while j < n
            invariant
                0 <= j <= n,
                n == s@.len(),
                s@ == vv[i as int],
                i < vv.len(),
                bytes@ == tuple_bytes(vv.subrange(0, i as int)) + chars_bytes(
                    s@.subrange(0, j as int),
                ),
            decreases n - j,
        {
            let c = s.get_char(j);
            let x = c as u32;
            bytes.push((x % 256) as u8);
            bytes.push((x / 256 % 256) as u8);
            bytes.push((x / 65536 % 256) as u8);
            bytes.push((x / 16777216 % 256) as u8);
            proof {
                let pre = s@.subrange(0, j as int);
                let cur = s@.subrange(0, j + 1 as int);
                assert(cur.drop_last() =~= pre);
                assert(cur.last() == s@[j as int]);
                assert(bytes@ =~= tuple_bytes(vv.subrange(0, i as int)) + chars_bytes(cur));
            }
            j = j + 1;
        }
        bytes.push(SEPARATOR_BYTE);
        proof {
            assert(s@.subrange(0, s@.len() as int) =~= s@);
            let pre = vv.subrange(0, i as int);
            let cur = vv.subrange(0, i + 1 as int);
            assert(cur.drop_last() =~= pre);
            assert(cur.last() == vv[i as int]);
            assert(bytes@ =~= tuple_bytes(pre) + string_bytes(vv[i as int]));
            assert(bytes@ =~= tuple_bytes(cur));
        }
        i = i + 1;
    }
    proof {
        assert(vv.subrange(0, vv.len() as int) =~= vv);
    }
    fnv64(&bytes)
}

/// One child of a vector: stored under the hash of its label values.
#[derive(Debug)]
pub struct Entry<T> {
    pub key: u64,
    pub val: T,
}

/// The children of a vector, keyed by the hash of their label values.
/// Keys are unique; entries keep their insertion order.
#[derive(Debug)]
pub struct ChildMap<T> {
    pub entries: Vec<Entry<T>>,
}

impl<T> ChildMap<T> {
    /// Key uniqueness: the one structural invariant of the map.
    pub open spec fn wf(self) -> bool {
        forall|i: int, j: int|
            #![trigger self.entries@[i], self.entries@[j]]
            0 <= i < j < self.entries@.len() ==> self.entries@[i].key != self.entries@[j].key
    }

    /// Two positions holding the same key are the same position.
    pub proof fn lemma_key_unique(self, a: int, b: int)
        requires
            self.wf(),
            0 <= a < self.entries@.len(),
            0 <= b < self.entries@.len(),
            self.entries@[a].key == self.entries@[b].key,
        ensures
            a == b,
    {
        if a < b {
            assert(self.entries@[a].key != self.entries@[b].key);
        } else if b < a {
            assert(self.entries@[b].key != self.entries@[a].key);
        }
    }

    /// Whether some child is stored under the key.
    pub open spec fn contains_key(self, k: u64) -> bool {
        exists|i: int| 0 <= i < self.entries@.len() && (#[trigger] self.entries@[i]).key == k
    }

    /// The position of the key's child.
    pub open spec fn index_of(self, k: u64) -> int {
        choose|i: int| 0 <= i < self.entries@.len() && (#[trigger] self.entries@[i]).key == k
    }

    /// The child stored under the key.
    pub open spec fn value_of(self, k: u64) -> T {
        self.entries@[self.index_of(k)].val
    }

    /// An empty map.
    pub fn new() -> (r: Self)
        ensures
            r.entries@ == Seq::<Entry<T>>::empty(),
            r.wf(),
            forall|k: u64| !r.contains_key(k),
    {
        ChildMap { entries: Vec::new() }
    }

    /// How many children the map holds.
    pub fn len(&self) -> (n: usize)
        ensures
            n == self.entries@.len(),
    {
        self.entries.len()
    }

    /// The entry at a position, for walking the children in order.
    pub fn at(&self, i: usize) -> (r: &Entry<T>)
        requires
            i < self.entries@.len(),
        ensures
            *r == self.entries@[i as int],
    {
        &self.entries[i]
    }

    /// The position of the key's child, if any.
    pub fn find(&self, k: u64) -> (r: Option<usize>)
        requires
            self.wf(),
        ensures
            match r {
                Some(i) => self.contains_key(k) && 0 <= i < self.entries@.len()
                    && self.entries@[i as int].key == k && i as int == self.index_of(k),
                None => !self.contains_key(k),
            },
    {
        let mut i: usize = 0;
        while i < self.entries.len()
            invariant
                self.wf(),
                0 <= i <= self.entries@.len(),
                forall|j: int| 0 <= j < i ==> (#[trigger] self.entries@[j]).key != k,
            decreases self.entries@.len() - i,
        {
            if self.entries[i].key == k {
                proof {
                    assert(self.contains_key(k));
                    let ix = self.index_of(k);
                    assert(0 <= ix < self.entries@.len() && self.entries@[ix].key == k);
                    self.lemma_key_unique(ix, i as int);
                }
                return Some(i);
            }
            i = i + 1;
        }
        None
    }

    /// The key's child, if any.
    pub fn get(&self, k: u64) -> (r: Option<&T>)
        requires
            self.wf(),
        ensures
            match r {
                Some(v) => self.contains_key(k) && *v == self.value_of(k),
                None => !self.contains_key(k),
            },
    {
        match self.find(k) {
            Some(i) => Some(&self.entries[i].val),
            None => None,
        }
    }

    /// The key's child, for mutation in place.
    pub fn get_mut(&mut self, k: u64) -> (v: &mut T)
        requires
            old(self).wf(),
            old(self).contains_key(k),
        ensures
            *v == old(self).value_of(k),
            final(self).entries@ == old(self).entries@.update(
                old(self).index_of(k),
                (Entry { key: k, val: *final(v) }),
            ),
    {
        let i = match self.find(k) {
            Some(i) => i,
            None => {
                proof {
                    assert(false);
                }
                0
            },
        };
        &mut self.entries[i].val
    }

    /// Store a child under a key not yet present.
    pub fn insert(&mut self, k: u64, v: T)
        requires
            old(self).wf(),
            !old(self).contains_key(k),
        ensures
            final(self).entries@ == old(self).entries@.push((Entry { key: k, val: v })),
    {
        self.entries.push(Entry { key: k, val: v });
    }

    /// Take the key's child out, or report that none is stored.
    pub fn remove(&mut self, k: u64) -> (r: Option<T>)
        requires
            old(self).wf(),
        ensures
            old(self).contains_key(k) ==> {
                &&& r is Some
                &&& r->Some_0 == old(self).value_of(k)
                &&& final(self).entries@ == old(self).entries@.remove(old(self).index_of(k))
            },
            !old(self).contains_key(k) ==> r is None && final(self).entries@ == old(self).entries@,
    {
        match self.find(k) {
            Some(i) => {
                let e = self.entries.remove(i);
                Some(e.val)
            },
            None => None,
        }
    }
}

/// What mutating one child in place leaves: the same keys, the new child
/// under its key, every other child untouched.
pub proof fn lemma_update_keeps<T>(m1: ChildMap<T>, m2: ChildMap<T>, k: u64, v: T)
    requires
        m1.wf(),
        m1.contains_key(k),
        m2.entries@ == m1.entries@.update(m1.index_of(k), (Entry { key: k, val: v })),
    ensures
        m2.wf(),
        m2.entries@.len() == m1.entries@.len(),
        forall|k2: u64| m2.contains_key(k2) == m1.contains_key(k2),
        m2.value_of(k) == v,
        forall|k2: u64|
            k2 != k && m1.contains_key(k2) ==> m2.value_of(k2) == m1.value_of(k2),
{
    let i = m1.index_of(k);
    assert(0 <= i < m1.entries@.len() && m1.entries@[i].key == k);
    assert forall|a: int, b: int|
        0 <= a < b < m2.entries@.len() implies (#[trigger] m2.entries@[a]).key != (
    #[trigger] m2.entries@[b]).key by {
        assert(m1.entries@[a].key != m1.entries@[b].key);
    }
    assert forall|k2: u64| m2.contains_key(k2) == m1.contains_key(k2) by {
        if m1.contains_key(k2) {
            let j = m1.index_of(k2);
            if k2 == k {
                assert(m2.entries@[i].key == k2);
            } else {
                assert(m1.entries@[j].key == k2);
                assert(j != i);
                assert(m2.entries@[j].key == k2);
            }
            assert(m2.contains_key(k2));
        }
        if m2.contains_key(k2) {
            let j = m2.index_of(k2);
            assert(m2.entries@[j].key == k2);
            if j == i {
                assert(k2 == k);
            } else {
                assert(m1.entries@[j].key == k2);
            }
            assert(m1.contains_key(k2));
        }
    }
    assert(m2.contains_key(k));
    let i2 = m2.index_of(k);
    assert(m2.entries@[i2].key == k);
    if i2 != i {
        assert(m2.entries@[i].key == k);
        assert(false);
    }
    assert forall|k2: u64|
        k2 != k && m1.contains_key(k2) implies m2.value_of(k2) == m1.value_of(k2) by {
        let j = m1.index_of(k2);
        assert(m1.entries@[j].key == k2);
        assert(j != i);
        assert(m2.entries@[j].key == k2);
        let j2 = m2.index_of(k2);
        assert(m2.entries@[j2].key == k2);
        if j2 != j {
            assert(false);
        }
    }
}

/// What storing a new child leaves: its key present with the new child,
/// every other key and child as before, one entry more.
pub proof fn lemma_push_keeps<T>(m1: ChildMap<T>, m2: ChildMap<T>, k: u64, v: T)
    requires
        m1.wf(),
        !m1.contains_key(k),
        m2.entries@ == m1.entries@.push((Entry { key: k, val: v })),
    ensures
        m2.wf(),
        m2.entries@.len() == m1.entries@.len() + 1,
        m2.contains_key(k),
        m2.value_of(k) == v,
        forall|k2: u64| k2 != k ==> m2.contains_key(k2) == m1.contains_key(k2),
        forall|k2: u64|
            k2 != k && m1.contains_key(k2) ==> m2.value_of(k2) == m1.value_of(k2),
{
    let n = m1.entries@.len() as int;
    assert(m2.entries@[n].key == k);
    assert forall|a: int, b: int|
        0 <= a < b < m2.entries@.len() implies (#[trigger] m2.entries@[a]).key != (
    #[trigger] m2.entries@[b]).key by {
        if b < n {
            assert(m1.entries@[a].key != m1.entries@[b].key);
        } else {
            assert(m2.entries@[b].key == k);
            assert(m2.entries@[a] == m1.entries@[a]);
            if m1.entries@[a].key == k {
                assert(m1.contains_key(k));
            }
        }
    }
    assert(m2.contains_key(k));
    let i2 = m2.index_of(k);
    assert(m2.entries@[i2].key == k);
    if i2 != n {
        assert(m1.entries@[i2].key == k);
        assert(false);
    }
    assert forall|k2: u64| k2 != k implies m2.contains_key(k2) == m1.contains_key(k2) by {
        if m1.contains_key(k2) {
            let j = m1.index_of(k2);
            assert(m1.entries@[j].key == k2);
            assert(m2.entries@[j].key == k2);
            assert(m2.contains_key(k2));
        }
        if m2.contains_key(k2) {
            let j = m2.index_of(k2);
            assert(m2.entries@[j].key == k2);
            assert(j != n);
            assert(m1.entries@[j].key == k2);
            assert(m1.contains_key(k2));
        }
    }
    assert forall|k2: u64|
        k2 != k && m1.contains_key(k2) implies m2.value_of(k2) == m1.value_of(k2) by {
        let j = m1.index_of(k2);
        assert(m1.entries@[j].key == k2);
        assert(m2.entries@[j].key == k2);
        let j2 = m2.index_of(k2);
        assert(m2.entries@[j2].key == k2);
        if j2 != j {
            assert(false);
        }
    }
}

/// What taking a child out leaves: its key gone, every other key and
/// child as before, one entry fewer.
pub proof fn lemma_remove_keeps<T>(m1: ChildMap<T>, m2: ChildMap<T>, k: u64)
    requires
        m1.wf(),
        m1.contains_key(k),
        m2.entries@ == m1.entries@.remove(m1.index_of(k)),
    ensures
        m2.wf(),
        m2.entries@.len() == m1.entries@.len() - 1,
        !m2.contains_key(k),
        forall|k2: u64| k2 != k ==> m2.contains_key(k2) == m1.contains_key(k2),
        forall|k2: u64|
            k2 != k && m1.contains_key(k2) ==> m2.value_of(k2) == m1.value_of(k2),
{
    let i = m1.index_of(k);
    assert(0 <= i < m1.entries@.len() && m1.entries@[i].key == k);
    assert forall|a: int| 0 <= a < m2.entries@.len() implies (#[trigger] m2.entries@[a])
        == if a < i {
        m1.entries@[a]
    } else {
        m1.entries@[a + 1]
    } by {}
    assert forall|a: int, b: int|
        0 <= a < b < m2.entries@.len() implies (#[trigger] m2.entries@[a]).key != (
    #[trigger] m2.entries@[b]).key by {
        let a1 = if a < i { a } else { a + 1 };
        let b1 = if b < i { b } else { b + 1 };
        assert(m1.entries@[a1].key != m1.entries@[b1].key);
    }
    assert forall|a: int| 0 <= a < m2.entries@.len() implies (#[trigger] m2.entries@[a]).key
        != k by {
        let a1 = if a < i { a } else { a + 1 };
        if m1.entries@[a1].key == k {
            assert(a1 != i);
            if a1 < i {
                assert(m1.entries@[a1].key != m1.entries@[i].key);
            } else {
                assert(m1.entries@[i].key != m1.entries@[a1].key);
            }
        }
    }
    assert forall|k2: u64| k2 != k implies m2.contains_key(k2) == m1.contains_key(k2) by {
        if m1.contains_key(k2) {
            let j = m1.index_of(k2);
            assert(m1.entries@[j].key == k2);
            assert(j != i);
            if j < i {
                assert(m2.entries@[j].key == k2);
            } else {
                assert(m2.entries@[j - 1].key == k2);
            }
            assert(m2.contains_key(k2));
        }
        if m2.contains_key(k2) {
            let j = m2.index_of(k2);
            let j1 = if j < i { j } else { j + 1 };
            assert(m1.entries@[j1].key == k2);
            assert(m1.contains_key(k2));
        }
    }
    assert forall|k2: u64|
        k2 != k && m1.contains_key(k2) implies m2.value_of(k2) == m1.value_of(k2) by {
        let j = m1.index_of(k2);
        assert(m1.entries@[j].key == k2);
        assert(j != i);
        let j2 = m2.index_of(k2);
        assert(0 <= j2 < m2.entries@.len() && m2.entries@[j2].key == k2);
        let j2m = if j2 < i { j2 } else { j2 + 1 };
        assert(m1.entries@[j2m].key == k2);
        if j2m != j {
            assert(false);
        }
        assert(m2.entries@[j2].val == m1.entries@[j].val);
    }
}

} // verus!
