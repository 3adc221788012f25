//! A destination-tree model: a map from path to file bytes.
//!
//! The executor's algorithm is stated and proved over this model; the
//! surrounding program performs the same reads and writes against the real
//! filesystem. The model abstracts to a `Map` from path bytes to content
//! bytes; a write is a whole-file replacement, as the pipeline never appends.

use vstd::prelude::*;
use crate::paths::bytes_eq;

verus! {

/// Abstraction of an entry list to the map it denotes; a later entry for the
/// same path overrides an earlier one, as a later write overrides an earlier.
pub open spec fn map_of(entries: Seq<(Vec<u8>, Vec<u8>)>) -> Map<Seq<u8>, Seq<u8>>
    decreases entries.len(),
{
    if entries.len() == 0 {
        Map::empty()
    } else {
        map_of(entries.drop_last()).insert(entries.last().0@, entries.last().1@)
    }
}

/// Lookup in an entry list, last write wins.
pub open spec fn assoc_get(entries: Seq<(Vec<u8>, Vec<u8>)>, k: Seq<u8>) -> Option<Seq<u8>>
    decreases entries.len(),
{
    if entries.len() == 0 {
        None
    } else if entries.last().0@ == k {
        Some(entries.last().1@)
    } else {
        assoc_get(entries.drop_last(), k)
    }
}

/// `assoc_get` agrees with the denoted map.
pub proof fn lemma_assoc_get(entries: Seq<(Vec<u8>, Vec<u8>)>, k: Seq<u8>)
    ensures
        assoc_get(entries, k) == if map_of(entries).contains_key(k) {
            Some(map_of(entries)[k])
        } else {
            Option::<Seq<u8>>::None
        },
    decreases entries.len(),
{
    if entries.len() > 0 {
        lemma_assoc_get(entries.drop_last(), k);
    }
}

/// A file tree, modeled as the list of writes made to it.
pub struct FsModel {
    entries: Vec<(Vec<u8>, Vec<u8>)>,
}

impl View for FsModel {
    type V = Map<Seq<u8>, Seq<u8>>;

    closed spec fn view(&self) -> Map<Seq<u8>, Seq<u8>> {
        map_of(self.entries@)
    }
}

impl FsModel {
    /// An empty tree.
    pub fn empty() -> (r: FsModel)
        ensures
            r@ == Map::<Seq<u8>, Seq<u8>>::empty(),
    {
        FsModel { entries: Vec::new() }
    }

    /// Whether a file exists at `path`.
    #[verifier::loop_isolation(false)]
    pub fn contains(&self, path: &Vec<u8>) -> (r: bool)
        ensures
            r == self@.contains_key(path@),
    {
        proof {
            lemma_assoc_get(self.entries@, path@);
        }
        let mut i: usize = self.entries.len();
        proof {
            assert(self.entries@.take(self.entries@.len() as int) =~= self.entries@);
        }
        loop
            invariant
                i <= self.entries@.len(),
                assoc_get(self.entries@, path@) == assoc_get(
                    self.entries@.take(i as int),
                    path@,
                ),
            decreases i,
        {
            if i == 0 {
                proof {
                    assert(self.entries@.take(0).len() == 0);
                }
                return false;
            }
            if bytes_eq(&self.entries[i - 1].0, path) {
                proof {
                    assert(self.entries@.take(i as int).last() == self.entries@[i - 1]);
                }
                return true;
            }
            proof {
                assert(self.entries@.take(i as int).drop_last() =~= self.entries@.take(i - 1));
            }
            i = i - 1;
        }
    }

    /// The bytes at `path`, when a file exists there.
    #[verifier::loop_isolation(false)]
    pub fn read(&self, path: &Vec<u8>) -> (r: Option<&Vec<u8>>)
        ensures
            match r {
                Some(v) => self@.contains_key(path@) && v@ == self@[path@],
                None => !self@.contains_key(path@),
            },
    {
        proof {
            lemma_assoc_get(self.entries@, path@);
        }
        let mut i: usize = self.entries.len();
        proof {
            assert(self.entries@.take(self.entries@.len() as int) =~= self.entries@);
        }
        loop
            invariant
                i <= self.entries@.len(),
                assoc_get(self.entries@, path@) == assoc_get(
                    self.entries@.take(i as int),
                    path@,
                ),
            decreases i,
        {
            if i == 0 {
                proof {
                    assert(self.entries@.take(0).len() == 0);
                }
                return None;
            }
            if bytes_eq(&self.entries[i - 1].0, path) {
                proof {
                    assert(self.entries@.take(i as int).last() == self.entries@[i - 1]);
                }
                return Some(&self.entries[i - 1].1);
            }
            proof {
                assert(self.entries@.take(i as int).drop_last() =~= self.entries@.take(i - 1));
            }
            i = i - 1;
        }
    }

    /// Writes `data` at `path`, replacing any file already there.
    pub fn write(&mut self, path: Vec<u8>, data: Vec<u8>)
        ensures
            final(self)@ == old(self)@.insert(path@, data@),
    {
        self.entries.push((path, data));
        proof {
            assert(self.entries@.drop_last() =~= old(self).entries@);
        }
    }
}

} // verus!
