use vstd::prelude::*;
use crate::entry::{find_first, lemma_find_from_bounds, PackEntry};
use crate::error::Fault;
use crate::loader::{block_added, child_link, children, links_closed, ChainLoader};
use crate::manager::{locate, lookup, step, validate, walk, PK2_ROOT_BLOCK};

verus! {

/// Once the first `i` components of `path` lead from `start` to `c`, walking
/// all of `path` from `start` is walking the rest of it from `c`; the same
/// holds of validating.
pub proof fn lemma_walk_split(
    m: Map<u64, Seq<PackEntry>>,
    start: u64,
    path: Seq<Seq<char>>,
    i: int,
    c: u64,
)
    requires
        0 <= i <= path.len(),
        walk(m, start, path.take(i)) == Ok::<u64, Fault>(c),
    ensures
        walk(m, start, path) == walk(m, c, path.skip(i)),
        validate(m, start, path) == validate(m, c, path.skip(i)),
    decreases i,
{
    if i == 0 {
        assert(path.skip(0) =~= path);
    } else {
        let t = path.take(i);
        assert(t[0] == path[0]);
        let n = step(m, start, path[0])->Ok_0;
        assert(t.drop_first() =~= path.drop_first().take(i - 1));
        lemma_walk_split(m, n, path.drop_first(), i - 1, c);
        assert(path.drop_first().skip(i - 1) =~= path.skip(i));
    }
}

/// The empty path names no entry: it denotes the starting directory itself.
pub proof fn lemma_empty_path_is_no_entry(m: Map<u64, Seq<PackEntry>>, start: u64)
    ensures
        locate(m, start, Seq::empty()) == Ok::<Option<(u64, int)>, Fault>(None),
{
}

/// Where `..` does not resolve from `start`, validating a path that begins
/// with `..` is a boundary violation, whatever follows it.
pub proof fn lemma_unresolved_parent_is_denied(
    m: Map<u64, Seq<PackEntry>>,
    start: u64,
    rest: Seq<Seq<char>>,
)
    requires
        step(m, start, ".."@) is Err,
        step(m, start, ".."@)->Err_0 is NotFound,
    ensures
        validate(m, start, seq![".."@] + rest) == Err::<(u64, Seq<Seq<char>>), Fault>(
            Fault::BoundaryDenied,
        ),
{
    assert((seq![".."@] + rest)[0] == ".."@);
}

/// A component that names a file, reached after the components before it
/// resolve, ends both resolving and validating with "not a directory".
pub proof fn lemma_file_component_is_not_a_directory(
    m: Map<u64, Seq<PackEntry>>,
    start: u64,
    path: Seq<Seq<char>>,
    i: int,
    c: u64,
)
    requires
        0 <= i < path.len(),
        walk(m, start, path.take(i)) == Ok::<u64, Fault>(c),
        m.contains_key(c),
        find_first(m[c], path[i]) matches Some(j) && m[c][j] is File,
    ensures
        walk(m, start, path) == Err::<u64, Fault>(Fault::NotADirectory(path[i])),
        validate(m, start, path) == Err::<(u64, Seq<Seq<char>>), Fault>(
            Fault::NotADirectory(path[i]),
        ),
{
    lemma_walk_split(m, start, path, i, c);
    assert(path.skip(i)[0] == path[i]);
}

/// In an index whose links are closed, stepping from a chain of the index
/// into its first entry named `name`, where that entry is a directory other
/// than `.` or `..`, reaches a chain that the index holds.
pub proof fn lemma_closed_link_resolves(m: Map<u64, Seq<PackEntry>>, k: u64, name: Seq<char>)
    requires
        links_closed(m),
        m.contains_key(k),
        find_first(m[k], name) matches Some(j) && child_link(m[k][j]) is Some,
    ensures
        step(m, k, name) is Ok,
        m.contains_key(step(m, k, name)->Ok_0),
{
    lemma_find_from_bounds(m[k], name, 0);
    let j = find_first(m[k], name)->Some_0;
    assert(m.contains_key(child_link(m[k][j])->Some_0));
}

/// The first entry of chain `k` named `name` is a directory leading to `d`.
pub open spec fn first_is_dir(m: Map<u64, Seq<PackEntry>>, k: u64, name: Seq<char>, d: u64) -> bool {
    &&& m.contains_key(k)
    &&& find_first(m[k], name) matches Some(j) && m[k][j] matches PackEntry::Directory {
        pos_children,
        ..
    } && pos_children == d
}

/// Where `a` is a directory of `root` and its chain holds no entry named
/// `leaf`, resolving `a/leaf` to an entry fails with "not found" naming `leaf`.
pub proof fn lemma_missing_leaf_is_not_found(
    m: Map<u64, Seq<PackEntry>>,
    root: u64,
    a: Seq<char>,
    d: u64,
    leaf: Seq<char>,
)
    requires
        first_is_dir(m, root, a, d),
        m.contains_key(d),
        find_first(m[d], leaf) is None,
    ensures
        locate(m, root, seq![a, leaf]) == Err::<Option<(u64, int)>, Fault>(Fault::NotFound(leaf)),
{
    let p = seq![a, leaf];
    assert(p.drop_last() =~= seq![a]);
    assert(seq![a].drop_first() =~= Seq::<Seq<char>>::empty());
    assert(step(m, root, a) == Ok::<u64, Fault>(d));
    assert(walk(m, d, Seq::<Seq<char>>::empty()) == Ok::<u64, Fault>(d));
    assert(walk(m, root, seq![a]) == Ok::<u64, Fault>(d));
    assert(p.last() == leaf);
    assert(lookup(m, d, leaf) == Err::<int, Fault>(Fault::NotFound(leaf)));
}

/// Where `a` is a directory of `root` and its chain holds no entry named `x`
/// (other than `..`), validating `a/x/y` stops in `a`'s chain with `x/y` left.
pub proof fn lemma_missing_suffix_is_returned(
    m: Map<u64, Seq<PackEntry>>,
    root: u64,
    a: Seq<char>,
    d: u64,
    x: Seq<char>,
    y: Seq<char>,
)
    requires
        first_is_dir(m, root, a, d),
        m.contains_key(d),
        find_first(m[d], x) is None,
        x != ".."@,
    ensures
        validate(m, root, seq![a, x, y]) == Ok::<(u64, Seq<Seq<char>>), Fault>((d, seq![x, y])),
{
    let p = seq![a, x, y];
    assert(p.drop_first() =~= seq![x, y]);
    assert(p[0] == a);
    assert(step(m, root, a) == Ok::<u64, Fault>(d));
    assert(seq![x, y][0] == x);
    assert(step(m, d, x) == Err::<u64, Fault>(Fault::NotFound(x)));
    assert(validate(m, d, seq![x, y]) == Ok::<(u64, Seq<Seq<char>>), Fault>((d, seq![x, y])));
}

/// Every directory among `es` is a self (`.`) or parent (`..`) link.
pub open spec fn only_dot_links(es: Seq<PackEntry>) -> bool {
    forall|j: int|
        0 <= j < es.len() ==> (#[trigger] es[j] matches PackEntry::Directory { name, .. } ==> name@
            == "."@ || name@ == ".."@)
}

/// Self and parent links lead down to no chain: a chain whose only
/// directories are `.` and `..` queues nothing when it is stored.
pub proof fn lemma_dot_links_queue_nothing(es: Seq<PackEntry>)
    requires
        only_dot_links(es),
    ensures
        children(es) == Seq::<u64>::empty(),
    decreases es.len(),
{
    if es.len() > 0 {
        assert(only_dot_links(es.drop_last()));
        lemma_dot_links_queue_nothing(es.drop_last());
        assert(es.last() == es[es.len() - 1]);
    }
}

/// Reading a root chain of one block whose only directories are `.` and
/// `..` finishes the load with the root as the one chain of the index.
pub proof fn lemma_dot_only_root_is_whole_index(
    before: ChainLoader,
    after: ChainLoader,
    es: Seq<PackEntry>,
)
    requires
        before.index().dom() == Set::<u64>::empty(),
        before.pending@.len() == 0,
        before.current == Some(PK2_ROOT_BLOCK),
        before.reading@.len() == 0,
        block_added(before, after, es, PK2_ROOT_BLOCK, None),
        only_dot_links(es),
    ensures
        after.index().dom() == set![PK2_ROOT_BLOCK],
        after.index()[PK2_ROOT_BLOCK] == es,
        after.pending@.len() == 0,
        after.current is None,
{
    lemma_dot_links_queue_nothing(before.reading@ + es);
    assert(before.reading@ + es =~= es);
    assert(after.index().dom() =~= set![PK2_ROOT_BLOCK]);
}

} // verus!
