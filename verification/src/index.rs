//! A map from keys to identities, found by a hash of the key's bytes.

use std::collections::HashMap;
use vstd::prelude::*;
use crate::order::name_bytes;
use crate::project::ProjectKey;

verus! {

broadcast use vstd::std_specs::hash::group_hash_axioms;

/// Where the hash of a key starts.
pub const HASH_START: u64 = 0xcbf2_9ce4_8422_2325;

/// The factor by which the hash is spread after each byte.
pub const HASH_FACTOR: u64 = 0x0000_0100_0000_01b3;

/// The hash after one more byte.
pub open spec fn mixed(hash: u64, byte: u8) -> u64 {
    (hash ^ (byte as u64)).wrapping_mul(HASH_FACTOR)
}

/// The hash of a byte string: each byte in turn is mixed in.
pub open spec fn hash_of(bytes: Seq<u8>) -> u64
    decreases bytes.len(),
{
    if bytes.len() == 0 {
        HASH_START
    } else {
        mixed(hash_of(bytes.drop_last()), bytes.last())
    }
}

/// Computes the hash of a key.
pub fn hash_key(key: &ProjectKey) -> (hash: u64)
    ensures
        hash == hash_of(name_bytes(key@)),
{
    let bytes = key.as_str().as_bytes();
    let mut hash: u64 = HASH_START;
    let mut i: usize = 0;
    while i < bytes.len()
        invariant
            i <= bytes@.len(),
            hash == hash_of(bytes@.take(i as int)),
        decreases bytes@.len() - i,
    {
        proof {
            assert(bytes@.take(i + 1).drop_last() =~= bytes@.take(i as int));
        }
        hash = (hash ^ (bytes[i] as u64)).wrapping_mul(HASH_FACTOR);
        i = i + 1;
    }
    proof {
        assert(bytes@.take(i as int) =~= bytes@);
    }
    hash
}

/// The identity under which the first entry from position `from` on holds
/// the key.
pub open spec fn held_from(entries: Seq<(ProjectKey, usize)>, key: Seq<char>, from: int) -> Option<
    usize,
>
    decreases entries.len() - from,
{
    if from < 0 || from >= entries.len() {
        None
    } else if entries[from].0@ == key {
        Some(entries[from].1)
    } else {
        held_from(entries, key, from + 1)
    }
}

/// An entry added at the end is found where no earlier entry holds the key,
/// and changes nothing for other keys.
proof fn lemma_held_after_push(
    entries: Seq<(ProjectKey, usize)>,
    entry: (ProjectKey, usize),
    key: Seq<char>,
    from: int,
)
    requires
        0 <= from <= entries.len(),
    ensures
        held_from(entries.push(entry), key, from) == if held_from(entries, key, from) is Some {
            held_from(entries, key, from)
        } else if entry.0@ == key {
            Some(entry.1)
        } else {
            None
        },
    decreases entries.len() - from,
{
    let more = entries.push(entry);
    if from < entries.len() {
        assert(more[from] == entries[from]);
        if entries[from].0@ != key {
            lemma_held_after_push(entries, entry, key, from + 1);
        }
    } else {
        assert(more[from] == entry);
        assert(held_from(more, key, from + 1) is None);
    }
}

/// A map from keys to identities.
#[derive(Debug)]
pub struct KeyIndex {
    buckets: HashMap<u64, Vec<(ProjectKey, usize)>>,
}

impl KeyIndex {
    /// The identity that the buckets hold for a key.
    pub closed spec fn held(&self, key: Seq<char>) -> Option<usize> {
        let hash = hash_of(name_bytes(key));
        if self.buckets@.contains_key(hash) {
            held_from(self.buckets@[hash]@, key, 0)
        } else {
            None
        }
    }
}

impl View for KeyIndex {
    type V = Map<Seq<char>, usize>;

    open spec fn view(&self) -> Map<Seq<char>, usize> {
        Map::new(|key: Seq<char>| self.held(key) is Some, |key: Seq<char>| self.held(key)->0)
    }
}

impl KeyIndex {
    /// An index without keys.
    pub fn new() -> (index: KeyIndex)
        ensures
            index@ == Map::<Seq<char>, usize>::empty(),
    {
        let index = KeyIndex { buckets: HashMap::new() };
        proof {
            assert(index@ =~= Map::<Seq<char>, usize>::empty());
        }
        index
    }

    /// The identity of a key, if the index holds the key.
    pub fn get(&self, key: &ProjectKey) -> (r: Option<usize>)
        ensures
            r == if self@.contains_key(key@) {
                Some(self@[key@])
            } else {
                None
            },
    {
        let hash = hash_key(key);
        match self.buckets.get(&hash) {
            Some(entries) => {
                let mut i: usize = 0;
                while i < entries.len()
                    invariant
                        i <= entries@.len(),
                        self.held(key@) == held_from(entries@, key@, i as int),
                    decreases entries@.len() - i,
                {
                    if entries[i].0 == *key {
                        proof {
                            assert(held_from(entries@, key@, i as int) == Some(entries@[i as int].1));
                        }
                        return Some(entries[i].1);
                    }
                    i = i + 1;
                }
                None
            },
            None => None,
        }
    }

    /// Takes a key that the index does not hold yet, with its identity.
    pub fn insert(&mut self, key: ProjectKey, id: usize)
        requires
            !old(self)@.contains_key(key@),
        ensures
            final(self)@ == old(self)@.insert(key@, id),
    {
        let hash = hash_key(&key);
        let ghost text = key@;
        let mut entries = match self.buckets.remove(&hash) {
            Some(entries) => entries,
            None => Vec::new(),
        };
        let ghost before = entries@;
        entries.push((key, id));
        self.buckets.insert(hash, entries);
        proof {
            assert(held_from(before, text, 0) is None);
            assert forall|other: Seq<char>| #[trigger] self.held(other) == if other == text {
                Some(id)
            } else {
                old(self).held(other)
            } by {
                let other_hash = hash_of(name_bytes(other));
                if other_hash == hash {
                    lemma_held_after_push(before, (key, id), other, 0);
                }
            }
            assert(self@ =~= old(self)@.insert(text, id));
        }
    }
}

} // verus!
