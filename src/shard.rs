//! One partition of the key space, and the routing of keys to partitions.
use vstd::prelude::*;

use std::hash::BuildHasher;

use crate::NUM_SHARDS;

verus! {

/// The map that a sequence of entries stands for; a later entry for a key
/// overrides an earlier one.
pub open spec fn entries_map(e: Seq<(String, String)>) -> Map<Seq<char>, Seq<char>>
    decreases e.len(),
{
    if e.len() == 0 {
        Map::empty()
    } else {
        entries_map(e.drop_last()).insert(e.last().0@, e.last().1@)
    }
}

/// No two entries share a key.
pub open spec fn keys_unique(e: Seq<(String, String)>) -> bool {
    forall|i: int, j: int| 0 <= i < j < e.len() ==> e[i].0@ != e[j].0@
}

proof fn lemma_entry_present(e: Seq<(String, String)>, i: int)
    requires
        keys_unique(e),
        0 <= i < e.len(),
    ensures
        entries_map(e).contains_key(e[i].0@),
        entries_map(e)[e[i].0@] == e[i].1@,
    decreases e.len(),
{
    if i < e.len() - 1 {
        lemma_entry_present(e.drop_last(), i);
    }
}

proof fn lemma_entry_absent(e: Seq<(String, String)>, k: Seq<char>)
    requires
        forall|i: int| 0 <= i < e.len() ==> e[i].0@ != k,
    ensures
        !entries_map(e).contains_key(k),
    decreases e.len(),
{
    if e.len() > 0 {
        lemma_entry_absent(e.drop_last(), k);
    }
}

proof fn lemma_entry_replaced(e: Seq<(String, String)>, i: int, p: (String, String))
    requires
        keys_unique(e),
        0 <= i < e.len(),
        p.0@ == e[i].0@,
    ensures
        entries_map(e.update(i, p)) == entries_map(e).insert(p.0@, p.1@),
    decreases e.len(),
{
    let u = e.update(i, p);
    if i == e.len() - 1 {
        assert(u.drop_last() =~= e.drop_last());
        assert(entries_map(u) =~= entries_map(e).insert(p.0@, p.1@));
    } else {
        assert(u.drop_last() =~= e.drop_last().update(i, p));
        lemma_entry_replaced(e.drop_last(), i, p);
        assert(e.last().0@ != p.0@);
        assert(entries_map(u) =~= entries_map(e).insert(p.0@, p.1@));
    }
}

/// One partition of the store: a map from keys to values.
///
/// The entries sit in a vector with unique keys rather than in a
/// `HashMap<String, String>`: vstd specifies a hash map's contents only for
/// key types that obey its key model, which it proves for integers and not
/// for `String`, so no lookup in such a map could be related to its contents.
pub struct Shard {
    entries: Vec<(String, String)>,
}

impl View for Shard {
    type V = Map<Seq<char>, Seq<char>>;

    closed spec fn view(&self) -> Map<Seq<char>, Seq<char>> {
        entries_map(self.entries@)
    }
}

impl Shard {
    pub closed spec fn wf(&self) -> bool {
        keys_unique(self.entries@)
    }

    pub fn new() -> (r: Shard)
        ensures
            r.wf(),
            r@ == Map::<Seq<char>, Seq<char>>::empty(),
    {
        Shard { entries: Vec::new() }
    }

    /// Position of the entry for `key`, if there is one.
    fn find(&self, key: &String) -> (r: Option<usize>)
        requires
            self.wf(),
        ensures
            r is None ==> !self@.contains_key(key@),
            r is None ==> forall|j: int| 0 <= j < self.entries.len() ==> self.entries@[j].0@ != key@,
            r matches Some(i) ==> i < self.entries.len() && self.entries@[i as int].0@ == key@,
    {
        let mut i: usize = 0;
        while i < self.entries.len()
            invariant
                i <= self.entries.len(),
                forall|j: int| 0 <= j < i ==> self.entries@[j].0@ != key@,
            decreases self.entries.len() - i,
        {
            if self.entries[i].0 == *key {
                return Some(i);
            }
            i = i + 1;
        }
        proof {
            lemma_entry_absent(self.entries@, key@);
        }
        None
    }

    /// A copy of the value stored under `key`.
    pub fn get(&self, key: &String) -> (r: Option<String>)
        requires
            self.wf(),
        ensures
            r is None <==> !self@.contains_key(key@),
            r matches Some(v) ==> self@.contains_key(key@) && v@ == self@[key@],
    {
        match self.find(key) {
            None => None,
            Some(i) => {
                proof {
                    lemma_entry_present(self.entries@, i as int);
                }
                Some(self.entries[i].1.clone())
            },
        }
    }

    /// Stores `value` under `key`, replacing what was there.
    pub fn set(&mut self, key: String, value: String)
        requires
            old(self).wf(),
        ensures
            final(self).wf(),
            final(self)@ == old(self)@.insert(key@, value@),
    {
        match self.find(&key) {
            None => {
                let ghost before = self.entries@;
                self.entries.push((key, value));
                assert(self.entries@.drop_last() =~= before);
            },
            Some(i) => {
                proof {
                    lemma_entry_replaced(self.entries@, i as int, (key, value));
                }
                self.entries.set(i, (key, value));
            },
        }
    }
}

/// What the standard library's default hasher gives for a key. It depends on
/// the key alone within one build of the program.
pub uninterp spec fn std_hash_of(key: Seq<char>) -> u64;

/// Relies on `BuildHasher::hash_one` with the default hasher of `std`, whose
/// instances made by `default` all start from the same state.
#[verifier::external_body]
fn hash_key(key: &str) -> (r: u64)
    ensures
        r == std_hash_of(key@),
{
    std::hash::BuildHasherDefault::<std::hash::DefaultHasher>::default().hash_one(key)
}

/// The partition that a key with hash `h` belongs to.
pub open spec fn shard_of_hash(h: u64) -> int {
    (h % (NUM_SHARDS as u64)) as int
}

/// The partition that a key belongs to.
pub open spec fn shard_of(key: Seq<char>) -> int {
    shard_of_hash(std_hash_of(key))
}

/// Index of the partition for a key whose hash is `h`.
pub fn shard_index(h: u64) -> (r: usize)
    ensures
        r == shard_of_hash(h),
        r < NUM_SHARDS,
{
    (h % (NUM_SHARDS as u64)) as usize
}

/// Index of the partition that holds `key`.
pub fn select_shard(key: &str) -> (r: usize)
    ensures
        r == shard_of(key@),
        r < NUM_SHARDS,
{
    shard_index(hash_key(key))
}

} // verus!
