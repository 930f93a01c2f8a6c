use vstd::prelude::*;
use vstd::string::StringExecFns;
use crate::chain_map::{chains_of, ChainMap};
use crate::entry::{find_first, PackBlockChain, PackEntry};
use crate::error::{Fault, Pk2Error};

verus! {

/// File offset of the root directory's chain.
pub const PK2_ROOT_BLOCK: u64 = 256;

/// A path as the resolver sees it: the names of its components, in order.
pub open spec fn path_view(p: Seq<String>) -> Seq<Seq<char>> {
    p.map_values(|s: String| s@)
}

/// The result of a resolver operation with its error replaced by its model.
pub open spec fn res_view<T>(r: Result<T, Pk2Error>) -> Result<T, Fault> {
    match r {
        Ok(v) => Ok(v),
        Err(e) => Err(e@),
    }
}

/// The index of the first entry of chain `cur` named `name`. Looking in a
/// chain that the index does not hold fails with `MissingChain`.
pub open spec fn lookup(m: Map<u64, Seq<PackEntry>>, cur: u64, name: Seq<char>) -> Result<int, Fault> {
    if !m.contains_key(cur) {
        Err(Fault::MissingChain(cur))
    } else {
        match find_first(m[cur], name) {
            None => Err(Fault::NotFound(name)),
            Some(i) => Ok(i),
        }
    }
}

/// Moving from directory `cur` into its first entry named `name`: a directory
/// entry leads to its child chain, any other entry is not a directory.
pub open spec fn step(m: Map<u64, Seq<PackEntry>>, cur: u64, name: Seq<char>) -> Result<u64, Fault> {
    match lookup(m, cur, name) {
        Err(e) => Err(e),
        Ok(i) => match m[cur][i] {
            PackEntry::Directory { pos_children, .. } => Ok(pos_children),
            _ => Err(Fault::NotADirectory(name)),
        },
    }
}

/// The chain reached from `cur` by following every component of `path`.
pub open spec fn walk(m: Map<u64, Seq<PackEntry>>, cur: u64, path: Seq<Seq<char>>) -> Result<u64, Fault>
    decreases path.len(),
{
    if path.len() == 0 {
        Ok(cur)
    } else {
        match step(m, cur, path[0]) {
            Ok(next) => walk(m, next, path.drop_first()),
            Err(e) => Err(e),
        }
    }
}

/// The parent chain of the entry that `path` names from `cur`, and the index
/// of that entry in it; `None` for the empty path.
pub open spec fn locate(m: Map<u64, Seq<PackEntry>>, cur: u64, path: Seq<Seq<char>>) -> Result<
    Option<(u64, int)>,
    Fault,
> {
    if path.len() == 0 {
        Ok(None)
    } else {
        match walk(m, cur, path.drop_last()) {
            Err(e) => Err(e),
            Ok(parent) => match lookup(m, parent, path.last()) {
                Err(e) => Err(e),
                Ok(i) => Ok(Some((parent, i))),
            },
        }
    }
}

/// The deepest chain that the leading components of `path` reach from `cur`,
/// and the components left over, which start at the first component that
/// names no entry. A missing `..` is a boundary violation; any other error
/// ends the walk.
pub open spec fn validate(m: Map<u64, Seq<PackEntry>>, cur: u64, path: Seq<Seq<char>>) -> Result<
    (u64, Seq<Seq<char>>),
    Fault,
>
    decreases path.len(),
{
    if path.len() == 0 {
        Ok((cur, path))
    } else {
        match step(m, cur, path[0]) {
            Ok(next) => validate(m, next, path.drop_first()),
            Err(Fault::NotFound(_)) => if path[0] == ".."@ {
                Err(Fault::BoundaryDenied)
            } else {
                Ok((cur, path))
            },
            Err(e) => Err(e),
        }
    }
}

/// The components of `path` from index `start` on.
fn suffix(path: &Vec<String>, start: usize) -> (r: Vec<String>)
    requires
        start <= path@.len(),
    ensures
        path_view(r@) == path_view(path@).skip(start as int),
{
    let mut rest: Vec<String> = Vec::new();
    let mut i = start;
    while i < path.len()
        invariant
            start <= i <= path@.len(),
            rest@.len() == i - start,
            forall|k: int| 0 <= k < rest@.len() ==> #[trigger] rest@[k]@ == path@[start + k]@,
        decreases path@.len() - i,
    {
        rest.push(path[i].clone());
        i = i + 1;
    }
    assert(path_view(rest@) =~= path_view(path@).skip(start as int));
    rest
}

/// The index of an archive: every directory chain, keyed by the file offset of
/// its first block.
pub struct BlockManager {
    pub chains: ChainMap,
}

impl View for BlockManager {
    type V = Map<u64, Seq<PackEntry>>;

    open spec fn view(&self) -> Map<u64, Seq<PackEntry>> {
        chains_of(self.chains).map_values(|c: PackBlockChain| c@)
    }
}

impl BlockManager {
    /// The chain stored under `id`.
    pub fn chain(&self, id: u64) -> (r: Option<&PackBlockChain>)
        ensures
            match r {
                Some(c) => self@.contains_key(id) && *c == chains_of(self.chains)[id] && c@
                    == self@[id],
                None => !self@.contains_key(id),
            },
    {
        self.chains.get(id)
    }

    /// Moves from chain `cur` into its entry `name`.
    pub fn find_block_chain_index_in(&self, cur: u64, name: &String) -> (r: Result<u64, Pk2Error>)
        ensures
            res_view(r) == step(self@, cur, name@),
    {
        let chain = match self.chain(cur) {
            Some(c) => c,
            None => {
                return Err(Pk2Error::MissingChain(cur));
            },
        };
        match chain.find_entry(name) {
            None => Err(Pk2Error::NotFound(name.clone())),
            Some(i) => match &chain.entries[i] {
                PackEntry::Directory { pos_children, .. } => Ok(*pos_children),
                _ => Err(Pk2Error::NotADirectory(name.clone())),
            },
        }
    }

    /// Follows the first `n` components of `path` from `start`.
    fn walk_prefix(&self, start: u64, path: &Vec<String>, n: usize) -> (r: Result<u64, Pk2Error>)
        requires
            n <= path@.len(),
        ensures
            res_view(r) == walk(self@, start, path_view(path@.take(n as int))),
    {
        let ghost p = path_view(path@.take(n as int));
        let mut cur = start;
        let mut i: usize = 0;
        assert(p.skip(0) =~= p);
        while i < n
            invariant
                i <= n <= path@.len(),
                p == path_view(path@.take(n as int)),
                walk(self@, start, p) == walk(self@, cur, p.skip(i as int)),
            decreases n - i,
        {
            assert(p.skip(i as int)[0] == path@[i as int]@);
            assert(p.skip(i as int).drop_first() =~= p.skip(i + 1));
            match self.find_block_chain_index_in(cur, &path[i]) {
                Ok(next) => {
                    cur = next;
                },
                Err(e) => {
                    return Err(e);
                },
            }
            i = i + 1;
        }
        assert(p.skip(n as int).len() == 0);
        Ok(cur)
    }

    /// Resolves `path` from chain `current_chain` to the chain it names.
    pub fn resolve_path_to_block_chain_index_at(&self, current_chain: u64, path: &Vec<String>) -> (r:
        Result<u64, Pk2Error>)
        ensures
            res_view(r) == walk(self@, current_chain, path_view(path@)),
    {
        assert(path@.take(path@.len() as int) =~= path@);
        self.walk_prefix(current_chain, path, path.len())
    }

    /// Resolves `path` from chain `current_chain` to the chain that holds the
    /// entry it names, and that entry; `None` for the empty path.
    pub fn resolve_path_to_entry_and_parent(&self, current_chain: u64, path: &Vec<String>) -> (r:
        Result<Option<(&PackBlockChain, &PackEntry)>, Pk2Error>)
        ensures
            match locate(self@, current_chain, path_view(path@)) {
                Ok(None) => r matches Ok(None),
                Ok(Some((parent, i))) => r matches Ok(Some((c, e))) && *c == chains_of(
                    self.chains,
                )[parent] && *e == self@[parent][i],
                Err(f) => r matches Err(x) && x@ == f,
            },
    {
        let ghost pv = path_view(path@);
        if path.len() == 0 {
            return Ok(None);
        }
        let last = path.len() - 1;
        assert(path_view(path@.take(last as int)) =~= pv.drop_last());
        let parent = self.walk_prefix(current_chain, path, last)?;
        let chain = match self.chain(parent) {
            Some(c) => c,
            None => {
                return Err(Pk2Error::MissingChain(parent));
            },
        };
        match chain.find_entry(&path[last]) {
            None => Err(Pk2Error::NotFound(path[last].clone())),
            Some(i) => Ok(Some((chain, &chain.entries[i]))),
        }
    }

    /// Walks `path` from chain `chain` as far as its components name existing
    /// directories, and returns the last chain reached with the components left.
    pub fn validate_dir_path_until(&self, chain: u64, path: &Vec<String>) -> (r: Result<
        (u64, Vec<String>),
        Pk2Error,
    >)
        ensures
            match validate(self@, chain, path_view(path@)) {
                Ok((c, rest)) => r matches Ok((c2, v)) && c2 == c && path_view(v@) == rest,
                Err(f) => r matches Err(x) && x@ == f,
            },
    {
        let ghost p = path_view(path@);
        let dotdot = String::from_str("..");
        proof {
            reveal_strlit("..");
        }
        let mut cur = chain;
        let mut i: usize = 0;
        assert(p.skip(0) =~= p);
        while i < path.len()
            invariant
                i <= path@.len(),
                p == path_view(path@),
                dotdot@ == ".."@,
                validate(self@, chain, p) == validate(self@, cur, p.skip(i as int)),
            decreases path@.len() - i,
        {
            assert(p.skip(i as int)[0] == path@[i as int]@);
            assert(p.skip(i as int).drop_first() =~= p.skip(i + 1));
            match self.find_block_chain_index_in(cur, &path[i]) {
                Ok(next) => {
                    cur = next;
                },
                Err(Pk2Error::NotFound(_)) => {
                    if path[i].eq(&dotdot) {
                        return Err(Pk2Error::BoundaryDenied);
                    }
                    return Ok((cur, suffix(path, i)));
                },
                Err(e) => {
                    return Err(e);
                },
            }
            i = i + 1;
        }
        assert(p.skip(i as int) =~= Seq::<Seq<char>>::empty());
        Ok((cur, Vec::new()))
    }
}

} // verus!
