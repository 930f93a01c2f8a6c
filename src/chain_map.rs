use vstd::prelude::*;
use crate::entry::PackBlockChain;

verus! {

/// The archive index's storage: directory chains keyed by the file offset of
/// their first block, held in a `hashbrown::HashMap`.
#[verifier::external_body]
pub struct ChainMap {
    inner: hashbrown::HashMap<u64, PackBlockChain>,
}

/// The chains that a [`ChainMap`] holds, by key.
pub uninterp spec fn chains_of(m: ChainMap) -> Map<u64, PackBlockChain>;

impl ChainMap {
    /// Relies on `hashbrown::HashMap::new`: the map starts empty.
    #[verifier::external_body]
    pub fn new() -> (r: ChainMap)
        ensures
            forall|k: u64| !#[trigger] chains_of(r).contains_key(k),
    {
        ChainMap { inner: hashbrown::HashMap::new() }
    }

    /// Relies on `hashbrown::HashMap::insert`: afterwards `k` maps to `v`, any
    /// earlier value under `k` is dropped and the other keys keep theirs.
    #[verifier::external_body]
    pub fn insert(&mut self, k: u64, v: PackBlockChain)
        ensures
            chains_of(*final(self)) == chains_of(*old(self)).insert(k, v),
    {
        self.inner.insert(k, v);
    }

    /// Relies on `hashbrown::HashMap::get`: the value under `k`, if there is one.
    #[verifier::external_body]
    pub fn get(&self, k: u64) -> (r: Option<&PackBlockChain>)
        ensures
            match r {
                Some(c) => chains_of(*self).contains_key(k) && *c == chains_of(*self)[k],
                None => !chains_of(*self).contains_key(k),
            },
    {
        self.inner.get(&k)
    }
}

} // verus!
