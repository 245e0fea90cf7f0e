//! The authoritative unspent-output state: a mapping from 32-byte output
//! ids to outputs, stored as a vector of entries with pairwise-distinct
//! keys and viewed as a `Map<Seq<u8>, OutputM>`.

use vstd::prelude::*;
use crate::bytes::{bytes_clone, bytes_eq};
use crate::tx::{Output, OutputM, HASH_LEN};

verus! {

/// The map denoted by a sequence of key-output entries; later entries win,
/// though a well-formed store never repeats a key.
pub open spec fn map_of(s: Seq<(Vec<u8>, Output)>) -> Map<Seq<u8>, OutputM>
    decreases s.len(),
{
    if s.len() == 0 {
        Map::empty()
    } else {
        map_of(s.drop_last()).insert(s.last().0@, s.last().1@)
    }
}

/// Total value stored in a sequence of entries.
pub open spec fn total_of(s: Seq<(Vec<u8>, Output)>) -> nat
    decreases s.len(),
{
    if s.len() == 0 {
        0nat
    } else {
        (total_of(s.drop_last()) + s.last().1.value) as nat
    }
}

/// No two entries share a key.
pub open spec fn unique_keys(s: Seq<(Vec<u8>, Output)>) -> bool {
    forall|i: int, j: int|
        #![trigger s[i], s[j]]
        0 <= i < j < s.len() ==> s[i].0@ != s[j].0@
}

pub proof fn lemma_map_of_contains(s: Seq<(Vec<u8>, Output)>, k: Seq<u8>)
    ensures
        map_of(s).contains_key(k) <==> exists|i: int| 0 <= i < s.len() && (#[trigger] s[i]).0@ == k,
    decreases s.len(),
{
    if s.len() > 0 {
        let dl = s.drop_last();
        lemma_map_of_contains(dl, k);
        if s.last().0@ == k {
            assert((s[s.len() - 1]).0@ == k);
        } else {
            if map_of(s).contains_key(k) {
                let i = choose|i: int| 0 <= i < dl.len() && (#[trigger] dl[i]).0@ == k;
                assert((s[i]).0@ == k);
            }
            if exists|i: int| 0 <= i < s.len() && (#[trigger] s[i]).0@ == k {
                let i = choose|i: int| 0 <= i < s.len() && (#[trigger] s[i]).0@ == k;
                assert(i < s.len() - 1);
                assert((dl[i]).0@ == k);
            }
        }
    }
}

pub proof fn lemma_map_of_index(s: Seq<(Vec<u8>, Output)>, i: int)
    requires
        unique_keys(s),
        0 <= i < s.len(),
    ensures
        map_of(s).contains_key(s[i].0@),
        map_of(s)[s[i].0@] == s[i].1@,
    decreases s.len(),
{
    let dl = s.drop_last();
    if i == s.len() - 1 {
    } else {
        assert(unique_keys(dl));
        assert(dl[i] == s[i]);
        lemma_map_of_index(dl, i);
        assert(s[i].0@ != s.last().0@);
    }
}

pub proof fn lemma_unique_remove(s: Seq<(Vec<u8>, Output)>, i: int)
    requires
        unique_keys(s),
        0 <= i < s.len(),
    ensures
        unique_keys(s.remove(i)),
{
    let r = s.remove(i);
    assert forall|p: int, q: int| 0 <= p < q < r.len() implies (#[trigger] r[p]).0@ != (
    #[trigger] r[q]).0@ by {
        let p0 = if p < i {
            p
        } else {
            p + 1
        };
        let q0 = if q < i {
            q
        } else {
            q + 1
        };
        assert(r[p] == s[p0]);
        assert(r[q] == s[q0]);
    }
}

pub proof fn lemma_map_of_remove(s: Seq<(Vec<u8>, Output)>, i: int)
    requires
        unique_keys(s),
        0 <= i < s.len(),
    ensures
        map_of(s.remove(i)) == map_of(s).remove(s[i].0@),
    decreases s.len(),
{
    let r = s.remove(i);
    let dl = s.drop_last();
    let k = s[i].0@;
    if i == s.len() - 1 {
        assert(r =~= dl);
        assert(forall|j: int| 0 <= j < dl.len() ==> (#[trigger] dl[j]).0@ != k);
        lemma_map_of_contains(dl, k);
        assert(!map_of(dl).contains_key(k));
        assert(map_of(dl) =~= map_of(dl).insert(k, s.last().1@).remove(k));
    } else {
        assert(unique_keys(dl));
        lemma_map_of_remove(dl, i);
        assert(r.drop_last() =~= dl.remove(i));
        assert(r.last() == s.last());
        let klast = s.last().0@;
        assert(dl[i] == s[i]);
        assert(k != klast);
        assert(map_of(r) == map_of(dl).remove(k).insert(klast, s.last().1@));
        assert(map_of(dl).remove(k).insert(klast, s.last().1@) =~= map_of(dl).insert(
            klast,
            s.last().1@,
        ).remove(k));
    }
}

pub proof fn lemma_total_of_remove(s: Seq<(Vec<u8>, Output)>, i: int)
    requires
        0 <= i < s.len(),
    ensures
        total_of(s.remove(i)) == total_of(s) - s[i].1.value,
    decreases s.len(),
{
    let r = s.remove(i);
    let dl = s.drop_last();
    if i == s.len() - 1 {
        assert(r =~= dl);
    } else {
        lemma_total_of_remove(dl, i);
        assert(r.drop_last() =~= dl.remove(i));
        assert(r.last() == s.last());
    }
}

pub proof fn lemma_map_of_update(s: Seq<(Vec<u8>, Output)>, i: int, e: (Vec<u8>, Output))
    requires
        unique_keys(s),
        0 <= i < s.len(),
        e.0@ == s[i].0@,
    ensures
        map_of(s.update(i, e)) == map_of(s).insert(e.0@, e.1@),
    decreases s.len(),
{
    let u = s.update(i, e);
    let dl = s.drop_last();
    let k = s[i].0@;
    if i == s.len() - 1 {
        assert(u.drop_last() =~= dl);
        assert(u.last() == e);
        assert(map_of(dl).insert(k, s.last().1@).insert(k, e.1@) =~= map_of(dl).insert(k, e.1@));
    } else {
        assert(unique_keys(dl));
        assert(dl[i] == s[i]);
        lemma_map_of_update(dl, i, e);
        assert(u.drop_last() =~= dl.update(i, e));
        assert(u.last() == s.last());
        let klast = s.last().0@;
        assert(k != klast);
        assert(map_of(u) == map_of(dl).insert(k, e.1@).insert(klast, s.last().1@));
        assert(map_of(dl).insert(k, e.1@).insert(klast, s.last().1@) =~= map_of(dl).insert(
            klast,
            s.last().1@,
        ).insert(k, e.1@));
    }
}

pub proof fn lemma_total_of_update(s: Seq<(Vec<u8>, Output)>, i: int, e: (Vec<u8>, Output))
    requires
        0 <= i < s.len(),
    ensures
        total_of(s.update(i, e)) == total_of(s) - s[i].1.value + e.1.value,
    decreases s.len(),
{
    let u = s.update(i, e);
    let dl = s.drop_last();
    if i == s.len() - 1 {
        assert(u.drop_last() =~= dl);
        assert(u.last() == e);
    } else {
        lemma_total_of_update(dl, i, e);
        assert(u.drop_last() =~= dl.update(i, e));
        assert(u.last() == s.last());
    }
}

/// The unspent-output store.
pub struct UtxoSet {
    pub entries: Vec<(Vec<u8>, Output)>,
}

impl View for UtxoSet {
    type V = Map<Seq<u8>, OutputM>;

    open spec fn view(&self) -> Map<Seq<u8>, OutputM> {
        map_of(self.entries@)
    }
}

impl UtxoSet {
    /// Keys are 32-byte hashes, pairwise distinct; stored outputs are
    /// well-formed and carry a positive value.
    pub open spec fn wf(self) -> bool {
        &&& unique_keys(self.entries@)
        &&& forall|i: int|
            0 <= i < self.entries@.len() ==> {
                &&& (#[trigger] self.entries@[i]).0@.len() == HASH_LEN
                &&& self.entries@[i].1@.wf()
                &&& self.entries@[i].1.value > 0
            }
    }

    /// Total value held by all unspent outputs.
    pub open spec fn spec_total(self) -> nat {
        total_of(self.entries@)
    }

    pub fn new() -> (r: UtxoSet)
        ensures
            r.wf(),
            r@ == Map::<Seq<u8>, OutputM>::empty(),
            r.spec_total() == 0,
    {
        UtxoSet { entries: Vec::new() }
    }

    fn find_index(&self, id: &Vec<u8>) -> (r: Option<usize>)
        ensures
            match r {
                Some(i) => i < self.entries@.len() && self.entries@[i as int].0@ == id@,
                None => forall|i: int|
                    0 <= i < self.entries@.len() ==> (#[trigger] self.entries@[i]).0@ != id@,
            },
    {
        let n = self.entries.len();
        let mut i: usize = 0;
        while i < n
            invariant
                i <= n,
                n == self.entries@.len(),
                forall|j: int| 0 <= j < i ==> (#[trigger] self.entries@[j]).0@ != id@,
            decreases n - i,
        {
            if bytes_eq(&self.entries[i].0, id) {
                return Some(i);
            }
            i = i + 1;
        }
        None
    }

    /// Whether an output id is unspent.
    pub fn contains(&self, id: &Vec<u8>) -> (r: bool)
        ensures
            r == self@.contains_key(id@),
    {
        proof {
            lemma_map_of_contains(self.entries@, id@);
        }
        match self.find_index(id) {
            Some(_) => true,
            None => false,
        }
    }

    /// The output an unspent id refers to.
    pub fn get(&self, id: &Vec<u8>) -> (r: Option<Output>)
        requires
            self.wf(),
        ensures
            match r {
                Some(o) => self@.contains_key(id@) && o@ == self@[id@],
                None => !self@.contains_key(id@),
            },
    {
        proof {
            lemma_map_of_contains(self.entries@, id@);
        }
        match self.find_index(id) {
            Some(i) => {
                proof {
                    lemma_map_of_index(self.entries@, i as int);
                }
                let entry = &self.entries[i];
                Some(Output { value: entry.1.value, pubkey: bytes_clone(&entry.1.pubkey) })
            },
            None => None,
        }
    }

    /// Add a fresh unspent output.
    pub fn insert(&mut self, id: Vec<u8>, output: Output)
        requires
            old(self).wf(),
            !old(self)@.contains_key(id@),
            id@.len() == HASH_LEN,
            output@.wf(),
            output.value > 0,
        ensures
            final(self).wf(),
            final(self)@ == old(self)@.insert(id@, output@),
            final(self).spec_total() == old(self).spec_total() + output.value,
    {
        proof {
            lemma_map_of_contains(self.entries@, id@);
        }
        let ghost before = self.entries@;
        let ghost key = id@;
        let ghost om = output@;
        let ghost val = output.value;
        self.entries.push((id, output));
        proof {
            assert(self.entries@.drop_last() =~= before);
            assert(self.entries@.last().0@ == key);
            assert(self.entries@.last().1@ == om);
            assert(self.entries@.last().1.value == val);
            assert forall|p: int, q: int| 0 <= p < q < self.entries@.len() implies (
            #[trigger] self.entries@[p]).0@ != (#[trigger] self.entries@[q]).0@ by {
                if q == self.entries@.len() - 1 {
                    assert(self.entries@[p] == before[p]);
                } else {
                    assert(self.entries@[p] == before[p]);
                    assert(self.entries@[q] == before[q]);
                }
            }
        }
    }

    /// Store an output under an id, replacing whatever the id held: the
    /// overwrite semantics of the host's key-value store.
    pub fn put(&mut self, id: Vec<u8>, output: Output)
        requires
            old(self).wf(),
            id@.len() == HASH_LEN,
            output@.wf(),
            output.value > 0,
        ensures
            final(self).wf(),
            final(self)@ == old(self)@.insert(id@, output@),
            final(self).spec_total() <= old(self).spec_total() + output.value,
            !old(self)@.contains_key(id@) ==> final(self).spec_total() == old(self).spec_total()
                + output.value,
    {
        proof {
            lemma_map_of_contains(self.entries@, id@);
        }
        match self.find_index(&id) {
            Some(i) => {
                proof {
                    lemma_map_of_index(self.entries@, i as int);
                    lemma_map_of_update(self.entries@, i as int, (id, output));
                    lemma_total_of_update(self.entries@, i as int, (id, output));
                }
                let ghost before = self.entries@;
                self.entries.set(i, (id, output));
                proof {
                    assert forall|p: int, q: int| 0 <= p < q < self.entries@.len() implies (
                    #[trigger] self.entries@[p]).0@ != (#[trigger] self.entries@[q]).0@ by {
                        assert(before[p].0@ != before[q].0@);
                        assert(self.entries@[p].0@ == before[p].0@);
                        assert(self.entries@[q].0@ == before[q].0@);
                    }
                }
            },
            None => {
                self.insert(id, output);
            },
        }
    }

    /// Spend an unspent output: remove it and hand it back.
    pub fn remove(&mut self, id: &Vec<u8>) -> (r: Output)
        requires
            old(self).wf(),
            old(self)@.contains_key(id@),
        ensures
            final(self).wf(),
            final(self)@ == old(self)@.remove(id@),
            r@ == old(self)@[id@],
            r@.wf(),
            r.value > 0,
            final(self).spec_total() == old(self).spec_total() - r.value,
    {
        proof {
            lemma_map_of_contains(self.entries@, id@);
        }
        let idx = match self.find_index(id) {
            Some(i) => i,
            None => {
                // unreachable: the key is in the map, so some entry holds it
                proof {
                    assert(false);
                }
                0
            },
        };
        proof {
            lemma_map_of_index(self.entries@, idx as int);
            lemma_map_of_remove(self.entries@, idx as int);
            lemma_total_of_remove(self.entries@, idx as int);
            lemma_unique_remove(self.entries@, idx as int);
        }
        let ghost before = self.entries@;
        let entry = self.entries.remove(idx);
        proof {
            assert forall|i: int| 0 <= i < self.entries@.len() implies {
                &&& (#[trigger] self.entries@[i]).0@.len() == HASH_LEN
                &&& self.entries@[i].1@.wf()
                &&& self.entries@[i].1.value > 0
            } by {
                if i < idx {
                    assert(self.entries@[i] == before[i]);
                } else {
                    assert(self.entries@[i] == before[i + 1]);
                }
            }
        }
        entry.1
    }
}

} // verus!
