use vstd::prelude::*;
use vstd::string::StringExecFns;
use crate::chain_map::{chains_of, ChainMap};
use crate::cipher::{blowfish_le_ecb_decrypt, PackCipher};
use crate::decode::{block_decodes, block_well_typed, decode_block, raw_next_block, PK2_FILE_BLOCK_SIZE};
use crate::entry::{PackBlock, PackBlockChain, PackEntry};
use crate::error::Pk2Error;
use crate::manager::{BlockManager, PK2_ROOT_BLOCK};

verus! {

/// The chain that entry `e` leads down to: a directory's, unless the entry is
/// the self (`.`) or parent (`..`) link, which lead back to known chains.
pub open spec fn child_link(e: PackEntry) -> Option<u64> {
    match e {
        PackEntry::Directory { name, pos_children } => if name@ == "."@ || name@ == ".."@ {
            None
        } else {
            Some(pos_children)
        },
        _ => None,
    }
}

/// The chains that the entries `es` lead down to, in order.
pub open spec fn children(es: Seq<PackEntry>) -> Seq<u64>
    decreases es.len(),
{
    if es.len() == 0 {
        Seq::empty()
    } else {
        match child_link(es.last()) {
            Some(c) => children(es.drop_last()).push(c),
            None => children(es.drop_last()),
        }
    }
}

/// Every chain that an entry of the index leads down to is in the index.
pub open spec fn links_closed(m: Map<u64, Seq<PackEntry>>) -> bool {
    forall|k: u64, j: int|
        #![trigger m[k][j]]
        m.contains_key(k) && 0 <= j < m[k].len() && child_link(m[k][j]) is Some ==> m.contains_key(
            child_link(m[k][j])->Some_0,
        )
}

proof fn lemma_children_contains(es: Seq<PackEntry>, j: int)
    requires
        0 <= j < es.len(),
        child_link(es[j]) is Some,
    ensures
        children(es).contains(child_link(es[j])->Some_0),
    decreases es.len(),
{
    let c = child_link(es[j])->Some_0;
    let rest = children(es.drop_last());
    if j == es.len() - 1 {
        assert(children(es)[rest.len() as int] == c);
    } else {
        lemma_children_contains(es.drop_last(), j);
        let i = choose|i: int| 0 <= i < rest.len() && rest[i] == c;
        assert(children(es)[i] == c);
    }
}

proof fn lemma_concat_contains(s: Seq<u64>, t: Seq<u64>, x: u64)
    requires
        s.contains(x) || t.contains(x),
    ensures
        (s + t).contains(x),
{
    if s.contains(x) {
        let i = choose|i: int| 0 <= i < s.len() && s[i] == x;
        assert((s + t)[i] == x);
    } else {
        let i = choose|i: int| 0 <= i < t.len() && t[i] == x;
        assert((s + t)[s.len() + i] == x);
    }
}

/// `after` is the loader `before` once the block at `offset`, holding
/// `entries` and followed by `next`, is added to the chain being read. While
/// the chain goes on, the block joins it; when it ends, the whole chain is
/// stored under the offset of its first block, with the offsets of all its
/// blocks, and the chains it leads down to are queued.
pub open spec fn block_added(
    before: ChainLoader,
    after: ChainLoader,
    entries: Seq<PackEntry>,
    offset: u64,
    next: Option<u64>,
) -> bool {
    match next {
        Some(n) => {
            &&& after.index() == before.index()
            &&& chains_of(after.chains) == chains_of(before.chains)
            &&& after.pending@ == before.pending@
            &&& after.current == before.current
            &&& after.next_offset == n
            &&& after.reading@ == before.reading@ + entries
            &&& after.reading.offsets@ == before.reading.offsets@.push(offset)
        },
        None => {
            &&& after.index() == before.index().insert(
                before.current->Some_0,
                before.reading@ + entries,
            )
            &&& chains_of(after.chains)[before.current->Some_0].offsets@
                == before.reading.offsets@.push(offset)
            &&& after.pending@ == before.pending@ + children(before.reading@ + entries)
            &&& after.current is None
            &&& after.reading@.len() == 0
            &&& after.reading.offsets@.len() == 0
        },
    }
}

/// The state of loading an archive's index: the chains read so far, the
/// offsets of chains still to read, and the chain being read, if any.
///
/// The caller drives it: [`ChainLoader::next_read`] names the offset of the
/// next block to read, [`ChainLoader::feed`] takes that block's raw bytes, and
/// [`BlockManager::new`] takes the loader once nothing is left to read.
pub struct ChainLoader {
    pub chains: ChainMap,
    pub pending: Vec<u64>,
    /// The offset of the first block of the chain being read.
    pub current: Option<u64>,
    /// The offset of the next block of the chain being read.
    pub next_offset: u64,
    pub reading: PackBlockChain,
}

impl ChainLoader {
    /// The entries of each chain read so far.
    pub open spec fn index(&self) -> Map<u64, Seq<PackEntry>> {
        chains_of(self.chains).map_values(|c: PackBlockChain| c@)
    }

    /// Chain `c` is read, waiting to be read, or being read.
    pub open spec fn known(&self, c: u64) -> bool {
        self.index().contains_key(c) || self.pending@.contains(c) || self.current == Some(c)
    }

    /// The root and every chain that a chain read so far leads down to are known.
    pub open spec fn wf(&self) -> bool {
        &&& self.known(PK2_ROOT_BLOCK)
        &&& forall|k: u64, j: int|
            #![trigger self.index()[k][j]]
            self.index().contains_key(k) && 0 <= j < self.index()[k].len() && child_link(
                self.index()[k][j],
            ) is Some ==> self.known(child_link(self.index()[k][j])->Some_0)
    }

    /// A loader with only the root chain to read.
    pub fn new() -> (r: ChainLoader)
        ensures
            r.wf(),
            r.index().dom() == Set::<u64>::empty(),
            r.pending@ == seq![PK2_ROOT_BLOCK],
            r.current is None,
    {
        let mut pending: Vec<u64> = Vec::new();
        pending.push(PK2_ROOT_BLOCK);
        let r = ChainLoader {
            chains: ChainMap::new(),
            pending,
            current: None,
            next_offset: PK2_ROOT_BLOCK,
            reading: PackBlockChain { offsets: Vec::new(), entries: Vec::new() },
        };
        assert(r.pending@[0] == PK2_ROOT_BLOCK);
        assert(r.index().dom() =~= Set::<u64>::empty());
        r
    }

    /// The offset of the next block to read: the next block of the chain being
    /// read, or else the first block of the last chain waiting; `None` once
    /// nothing is left to read.
    pub fn next_read(&mut self) -> (r: Option<u64>)
        requires
            old(self).wf(),
        ensures
            final(self).wf(),
            final(self).index() == old(self).index(),
            match old(self).current {
                Some(_) => r == Some(old(self).next_offset)
                    && final(self).pending@ == old(self).pending@
                    && final(self).current == old(self).current
                    && final(self).next_offset == old(self).next_offset
                    && final(self).reading == old(self).reading,
                None => if old(self).pending@.len() == 0 {
                    r is None && final(self).pending@ == old(self).pending@
                        && final(self).current is None
                } else {
                    r == Some(old(self).pending@.last())
                        && final(self).pending@ == old(self).pending@.drop_last()
                        && final(self).current == r
                        && final(self).next_offset == old(self).pending@.last()
                        && final(self).reading@.len() == 0
                        && final(self).reading.offsets@.len() == 0
                },
            },
    {
        if self.current.is_some() {
            return Some(self.next_offset);
        }
        let ghost before = *self;
        match self.pending.pop() {
            None => None,
            Some(offset) => {
                self.current = Some(offset);
                self.next_offset = offset;
                self.reading = PackBlockChain { offsets: Vec::new(), entries: Vec::new() };
                proof {
                    assert forall|c: u64| before.known(c) implies self.known(c) by {
                        if before.pending@.contains(c) {
                            let i = choose|i: int|
                                0 <= i < before.pending@.len() && before.pending@[i] == c;
                            if i < before.pending@.len() - 1 {
                                assert(self.pending@[i] == c);
                            }
                        }
                    }
                }
                Some(offset)
            },
        }
    }

    /// Adds a decoded block to the chain being read. When the block ends the
    /// chain, the chain goes into the index and the chains it leads down to
    /// join the ones waiting.
    pub fn feed_block(self, block: PackBlock) -> (r: ChainLoader)
        requires
            self.wf(),
            self.current is Some,
        ensures
            r.wf(),
            forall|k: u64| self.index().contains_key(k) ==> #[trigger] r.index().contains_key(k),
            block_added(self, r, block.entries@, block.offset, block.next_block),
    {
        let ghost before = self;
        let ghost all = self.reading@ + block.entries@;
        let ChainLoader { mut chains, mut pending, current, next_offset, mut reading } = self;
        let mut block = block;
        reading.offsets.push(block.offset);
        reading.entries.append(&mut block.entries);
        assert(reading@ == all);
        match block.next_block {
            Some(n) => {
                let r = ChainLoader { chains, pending, current, next_offset: n, reading };
                assert(r.index() == before.index());
                r
            },
            None => {
                let origin = current.unwrap();
                let dot = String::from_str(".");
                let dotdot = String::from_str("..");
                proof {
                    reveal_strlit(".");
                    reveal_strlit("..");
                }
                let mut i: usize = 0;
                while i < reading.entries.len()
                    invariant
                        i <= reading@.len(),
                        reading@ == all,
                        dot@ == "."@,
                        dotdot@ == ".."@,
                        pending@ == before.pending@ + children(all.take(i as int)),
                    decreases reading@.len() - i,
                {
                    assert(all.take(i + 1).drop_last() =~= all.take(i as int));
                    assert(all.take(i + 1).last() == all[i as int]);
                    match &reading.entries[i] {
                        PackEntry::Directory { name, pos_children } => {
                            if !(name.eq(&dot) || name.eq(&dotdot)) {
                                pending.push(*pos_children);
                            }
                        },
                        _ => {},
                    }
                    assert(pending@ =~= before.pending@ + children(all.take(i + 1)));
                    i = i + 1;
                }
                assert(all.take(i as int) =~= all);
                chains.insert(origin, reading);
                let r = ChainLoader {
                    chains,
                    pending,
                    current: None,
                    next_offset,
                    reading: PackBlockChain { offsets: Vec::new(), entries: Vec::new() },
                };
                assert(r.index() =~= before.index().insert(origin, all));
                proof {
                    assert forall|c: u64| before.known(c) implies r.known(c) by {
                        if before.pending@.contains(c) {
                            lemma_concat_contains(before.pending@, children(all), c);
                        }
                    }
                    assert forall|k: u64, j: int|
                        r.index().contains_key(k) && 0 <= j < r.index()[k].len() && child_link(
                            r.index()[k][j],
                        ) is Some implies r.known(child_link(r.index()[k][j])->Some_0) by {
                        let c = child_link(r.index()[k][j])->Some_0;
                        if k == origin {
                            lemma_children_contains(all, j);
                            lemma_concat_contains(before.pending@, children(all), c);
                        } else {
                            assert(before.index()[k][j] == r.index()[k][j]);
                            assert(before.known(c));
                        }
                    }
                }
                r
            },
        }
    }

    /// Decodes the decrypted bytes of the block at `next_offset` and adds
    /// the block to the chain being read; fails with `Format` exactly when a
    /// slot has an unknown type.
    pub fn feed_decrypted(self, dec: &Vec<u8>) -> (r: Result<ChainLoader, Pk2Error>)
        requires
            self.wf(),
            self.current is Some,
            dec@.len() == PK2_FILE_BLOCK_SIZE,
        ensures
            r is Ok <==> block_well_typed(dec@),
            r matches Err(e) ==> e is Format,
            r matches Ok(l) ==> l.wf() && exists|es: Seq<PackEntry>|
                #![trigger block_decodes(es, dec@)]
                block_decodes(es, dec@) && block_added(
                    self,
                    l,
                    es,
                    self.next_offset,
                    raw_next_block(dec@),
                ),
    {
        let offset = self.next_offset;
        match decode_block(dec, offset) {
            Ok(block) => {
                let ghost es = block.entries@;
                let r = self.feed_block(block);
                assert(block_decodes(es, dec@));
                Ok(r)
            },
            Err(e) => Err(e),
        }
    }

    /// Decrypts the raw bytes of the block at `next_offset` with `bf` and
    /// adds the block they decode to the chain being read.
    pub fn feed(self, bf: &mut PackCipher, buf: Vec<u8>) -> (r: Result<ChainLoader, Pk2Error>)
        requires
            self.wf(),
            self.current is Some,
            buf@.len() == PK2_FILE_BLOCK_SIZE,
        ensures
            final(bf).key() == old(bf).key(),
            r is Ok <==> block_well_typed(blowfish_le_ecb_decrypt(old(bf).key(), buf@)),
            r matches Err(e) ==> e is Format,
            r matches Ok(l) ==> l.wf() && exists|es: Seq<PackEntry>|
                #![trigger block_decodes(es, blowfish_le_ecb_decrypt(old(bf).key(), buf@))]
                block_decodes(es, blowfish_le_ecb_decrypt(old(bf).key(), buf@)) && block_added(
                    self,
                    l,
                    es,
                    self.next_offset,
                    raw_next_block(blowfish_le_ecb_decrypt(old(bf).key(), buf@)),
                ),
    {
        let mut dec = buf;
        bf.decrypt_in_place(&mut dec);
        self.feed_decrypted(&dec)
    }
}

impl BlockManager {
    /// The finished index, once the loader has nothing left to read; `None`
    /// while anything is.
    pub fn new(loader: ChainLoader) -> (r: Option<BlockManager>)
        requires
            loader.wf(),
        ensures
            r is Some <==> (loader.current is None && loader.pending@.len() == 0),
            r matches Some(m) ==> m@ == loader.index() && chains_of(m.chains) == chains_of(
                loader.chains,
            ) && m@.contains_key(PK2_ROOT_BLOCK) && links_closed(m@),
    {
        if loader.current.is_none() && loader.pending.len() == 0 {
            let m = BlockManager { chains: loader.chains };
            assert(m@ == loader.index());
            Some(m)
        } else {
            None
        }
    }
}

} // verus!
