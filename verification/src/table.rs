//! A map from text keys to values that remembers the order of insertion.

use vstd::prelude::*;
use vstd::pervasive::VecAdditionalExecFns;
use vstd::std_specs::hash::*;
use std::collections::HashMap;
use crate::text::texts;

verus! {

/// The codes of keys lie below this number.
pub const CODE_BOUND: u64 = 0x1FFF_FFFF_FFFF_FFFF;

/// A number for a text, by which the keys of a table are sorted into
/// groups. Texts that are equal have the same code.
pub open spec fn code(s: Seq<char>) -> u64
    decreases s.len(),
{
    if s.len() == 0 {
        0
    } else {
        ((code(s.drop_last()) * 31 + s.last() as u32) % (CODE_BOUND as int)) as u64
    }
}

/// Computes the code of a key.
pub fn code_of(key: &str) -> (out: u64)
    ensures
        out == code(key@),
{
    let mut h: u64 = 0;
    for c in it: key.chars()
        invariant
            it.seq() == key@,
            h == code(key@.subrange(0, it.index() as int)),
            h < CODE_BOUND || it.index() == 0,
    {
        assert(key@.subrange(0, it.index() + 1).drop_last() =~= key@.subrange(
            0,
            it.index() as int,
        ));
        let wide: u128 = h as u128 * 31 + (c as u32) as u128;
        h = (wide % (CODE_BOUND as u128)) as u64;
    }
    assert(key@.subrange(0, key@.len() as int) =~= key@);
    h
}

/// The place `i` is among the places.
pub open spec fn lists(places: Seq<usize>, i: int) -> bool {
    exists|k: int| 0 <= k < places.len() && #[trigger] places[k] == i
}

/// Keys and their values, side by side, and for each code the places of
/// the keys that have it. No key stands twice.
#[derive(Debug)]
pub struct Table<V> {
    pub keys: Vec<String>,
    pub values: Vec<V>,
    pub index: HashMap<u64, Vec<usize>>,
}

impl<V> Table<V> {
    /// The keys in the order in which they came.
    pub open spec fn key_texts(&self) -> Seq<Seq<char>> {
        texts(self.keys@)
    }

    /// The place of every key is listed under the key's code, and only
    /// places of the table are listed.
    pub open spec fn indexed(&self) -> bool {
        &&& forall|i: int|
            0 <= i < self.keys@.len() ==> self.index@.contains_key(
                code(#[trigger] self.key_texts()[i]),
            ) && lists(self.index@[code(self.key_texts()[i])]@, i)
        &&& forall|h: u64, j: int|
            self.index@.contains_key(h) && 0 <= j < self.index@[h]@.len() ==> (
            #[trigger] self.index@[h]@[j]) < self.keys@.len()
    }

    /// Each key has one value, no key stands twice, and the places are
    /// listed by their codes.
    pub open spec fn wf(&self) -> bool {
        &&& self.keys@.len() == self.values@.len()
        &&& self.key_texts().no_duplicates()
        &&& self.indexed()
    }

    /// The table has the key.
    pub open spec fn has(&self, key: Seq<char>) -> bool {
        self.key_texts().contains(key)
    }

    /// The value of a key that the table has.
    pub open spec fn value_of(&self, key: Seq<char>) -> V
        recommends
            self.has(key),
    {
        self.values@[self.key_texts().index_of(key)]
    }

    /// The table as a map.
    pub open spec fn view(&self) -> Map<Seq<char>, V> {
        Map::new(|k: Seq<char>| self.has(k), |k: Seq<char>| self.value_of(k))
    }

    /// In a well-formed table the value of the key at `i` is the value at `i`.
    pub proof fn value_at_key(&self, i: int)
        requires
            self.wf(),
            0 <= i < self.keys@.len(),
        ensures
            self.has(self.key_texts()[i]),
            self.value_of(self.key_texts()[i]) == self.values@[i],
            self@[self.key_texts()[i]] == self.values@[i],
    {
        let k = self.key_texts()[i];
        let j = self.key_texts().index_of(k);
        assert(0 <= j < self.key_texts().len() && self.key_texts()[j] == k);
    }

    /// An empty table.
    pub fn new() -> (out: Self)
        ensures
            out.wf(),
            out.keys@.len() == 0,
            out@ == Map::<Seq<char>, V>::empty(),
            forall|k: Seq<char>| !out.has(k),
    {
        broadcast use group_hash_axioms;

        let out = Table { keys: Vec::new(), values: Vec::new(), index: HashMap::new() };
        assert(out@ =~= Map::<Seq<char>, V>::empty());
        out
    }

    /// How many keys the table has.
    pub fn len(&self) -> (n: usize)
        requires
            self.wf(),
        ensures
            n == self.keys@.len(),
            n == self@.dom().len(),
            self@.dom().finite(),
    {
        proof {
            self.key_texts().unique_seq_to_set();
            assert(self@.dom() =~= self.key_texts().to_set());
        }
        self.keys.len()
    }

    /// Whether the table has no key.
    pub fn is_empty(&self) -> (yes: bool)
        ensures
            yes == (self.keys@.len() == 0),
    {
        self.keys.len() == 0
    }

    /// Where `key` stands, if it does.
    pub fn position(&self, key: &str) -> (at: Option<usize>)
        requires
            self.wf(),
        ensures
            match at {
                Some(i) => i < self.keys@.len() && self.key_texts()[i as int] == key@,
                None => !self.has(key@),
            },
    {
        broadcast use group_hash_axioms;

        let h: u64 = code_of(key);
        match self.index.get(&h) {
            None => {
                assert forall|i: int| 0 <= i < self.key_texts().len() implies self.key_texts()[i]
                    != key@ by {
                    if self.key_texts()[i] == key@ {
                        assert(self.index@.contains_key(code(self.key_texts()[i])));
                    }
                }
                None
            },
            Some(places) => {
                let mut j: usize = 0;
                while j < places.len()
                    invariant
                        j <= places.len(),
                        self.wf(),
                        h == code(key@),
                        self.index@.contains_key(h),
                        *places == self.index@[h],
                        forall|k: int|
                            0 <= k < j ==> self.key_texts()[(#[trigger] places@[k]) as int]
                                != key@,
                    decreases places.len() - j,
                {
                    let i: usize = places[j];
                    assert(self.index@[h]@[j as int] < self.keys@.len());
                    if *self.keys[i].as_str() == *key {
                        return Some(i);
                    }
                    j = j + 1;
                }
                assert forall|i: int| 0 <= i < self.key_texts().len() implies self.key_texts()[i]
                    != key@ by {
                    if self.key_texts()[i] == key@ {
                        assert(lists(self.index@[code(self.key_texts()[i])]@, i));
                        let k = choose|k: int|
                            0 <= k < places@.len() && #[trigger] places@[k] == i;
                        assert(self.key_texts()[places@[k] as int] != key@);
                    }
                }
                None
            },
        }
    }

    /// Whether the table has the key.
    pub fn contains_key(&self, key: &str) -> (yes: bool)
        requires
            self.wf(),
        ensures
            yes == self.has(key@),
    {
        self.position(key).is_some()
    }

    /// The value of the key, if the table has it.
    pub fn get(&self, key: &str) -> (out: Option<&V>)
        requires
            self.wf(),
        ensures
            match out {
                Some(v) => self.has(key@) && *v == self.value_of(key@) && *v == self@[key@],
                None => !self.has(key@),
            },
    {
        match self.position(key) {
            Some(i) => {
                proof {
                    self.value_at_key(i as int);
                }
                Some(&self.values[i])
            },
            None => None,
        }
    }

    /// Gives `key` the value `value`. A key that the table has keeps its
    /// place; a new one goes to the end.
    pub fn insert(&mut self, key: String, value: V)
        requires
            old(self).wf(),
        ensures
            final(self).wf(),
            final(self)@ == old(self)@.insert(key@, value),
            final(self).has(key@),
            final(self).value_of(key@) == value,
            forall|k: Seq<char>|
                k != key@ ==> (#[trigger] final(self).has(k)) == old(self).has(k),
            forall|k: Seq<char>|
                k != key@ && old(self).has(k) ==> (#[trigger] final(self).value_of(k)) == old(self).value_of(k),
            old(self).has(key@) ==> final(self).key_texts() == old(self).key_texts()
                && final(self).values@ == old(self).values@.update(
                old(self).key_texts().index_of(key@),
                value,
            ),
            !old(self).has(key@) ==> final(self).key_texts() == old(self).key_texts().push(key@)
                && final(self).values@ == old(self).values@.push(value),
    {
        broadcast use group_hash_axioms;

        let found = self.position(key.as_str());
        match found {
            Some(i) => {
                proof {
                    let j = old(self).key_texts().index_of(key@);
                    assert(0 <= j < old(self).key_texts().len() && old(self).key_texts()[j]
                        == key@);
                }
                self.values.set(i, value);
                assert(self.key_texts() == old(self).key_texts());
                assert(self.indexed());
            },
            None => {
                let h: u64 = code_of(key.as_str());
                let n: usize = self.keys.len();
                self.keys.push(key);
                self.values.push(value);
                let mut places: Vec<usize> = match self.index.remove(&h) {
                    Some(p) => p,
                    None => Vec::new(),
                };
                let ghost before_places = places@;
                places.push(n);
                self.index.insert(h, places);
                assert(self.key_texts() =~= old(self).key_texts().push(key@));
                proof {
                    let was = *old(self);
                    let now = *self;
                    assert(was.index@.contains_key(h) ==> before_places == was.index@[h]@);
                    assert forall|i: int| 0 <= i < now.keys@.len() implies now.index@.contains_key(
                        code(#[trigger] now.key_texts()[i]),
                    ) && lists(now.index@[code(now.key_texts()[i])]@, i) by {
                        let c = code(now.key_texts()[i]);
                        if i < n {
                            assert(was.key_texts()[i] == now.key_texts()[i]);
                            assert(was.index@.contains_key(c));
                            assert(lists(was.index@[c]@, i));
                            if c == h {
                                let k = choose|k: int|
                                    0 <= k < before_places.len() && #[trigger] before_places[k]
                                        == i;
                                assert(now.index@[h]@[k] == i);
                            }
                        } else {
                            assert(now.index@[h]@[before_places.len() as int] == n);
                        }
                    }
                    assert forall|c: u64, j: int|
                        now.index@.contains_key(c) && 0 <= j < now.index@[c]@.len() implies (
                    #[trigger] now.index@[c]@[j]) < now.keys@.len() by {
                        if c == h {
                            if j < before_places.len() {
                                assert(was.index@[h]@[j] < was.keys@.len());
                            }
                        } else {
                            assert(was.index@[c]@[j] < was.keys@.len());
                        }
                    }
                }
                assert forall|a: int, b: int|
                    0 <= a < self.key_texts().len() && 0 <= b < self.key_texts().len() && a
                        != b implies self.key_texts()[a] != self.key_texts()[b] by {
                    if a < old(self).key_texts().len() {
                        assert(old(self).key_texts()[a] == self.key_texts()[a]);
                    }
                    if b < old(self).key_texts().len() {
                        assert(old(self).key_texts()[b] == self.key_texts()[b]);
                    }
                }
            },
        }
        proof {
            let after = *self;
            let before = *old(self);
            assert forall|k: Seq<char>| after.has(k) == (before.has(k) || k == key@) by {
                if before.has(k) {
                    let j = before.key_texts().index_of(k);
                    assert(0 <= j < before.key_texts().len() && before.key_texts()[j] == k);
                    assert(after.key_texts()[j] == k);
                }
                if k == key@ {
                    if found is Some {
                        assert(after.key_texts()[found->0 as int] == k);
                    } else {
                        assert(after.key_texts()[after.key_texts().len() - 1] == k);
                    }
                }
                if after.has(k) {
                    let j = after.key_texts().index_of(k);
                    assert(0 <= j < after.key_texts().len() && after.key_texts()[j] == k);
                    if j < before.key_texts().len() {
                        assert(before.key_texts()[j] == k);
                    }
                }
            }
            assert forall|k: Seq<char>| after.has(k) implies #[trigger] after.value_of(k) == (if k
                == key@ {
                value
            } else {
                before.value_of(k)
            }) by {
                let j = after.key_texts().index_of(k);
                assert(0 <= j < after.key_texts().len() && after.key_texts()[j] == k);
                after.value_at_key(j);
                if k != key@ {
                    assert(j < before.key_texts().len());
                    before.value_at_key(j);
                } else if found is Some {
                    before.value_at_key(found->0 as int);
                    after.value_at_key(found->0 as int);
                } else {
                    after.value_at_key(after.key_texts().len() - 1);
                }
            }
            assert(after@ =~= before@.insert(key@, value));
        }
    }

    /// The key at the place `i`.
    pub fn key(&self, i: usize) -> (out: &String)
        requires
            i < self.keys@.len(),
        ensures
            out@ == self.key_texts()[i as int],
            *out == self.keys@[i as int],
    {
        &self.keys[i]
    }

    /// The value at the place `i`.
    pub fn value(&self, i: usize) -> (out: &V)
        requires
            self.wf(),
            i < self.keys@.len(),
        ensures
            *out == self.values@[i as int],
            *out == self@[self.key_texts()[i as int]],
    {
        proof {
            self.value_at_key(i as int);
        }
        &self.values[i]
    }
}

} // verus!
