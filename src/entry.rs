use vstd::prelude::*;

verus! {

/// Number of entries in one block.
pub const ENTRIES_PER_BLOCK: usize = 20;

/// One slot of a block.
pub enum PackEntry {
    /// An unused slot.
    Empty,
    /// A directory whose own chain starts at `pos_children`.
    Directory { name: String, pos_children: u64 },
    /// A file whose data starts at `pos_data` and holds `size` bytes.
    File { name: String, pos_data: u64, size: u32 },
}

impl PackEntry {
    /// The entry's name; unused slots have none.
    pub open spec fn spec_name(&self) -> Option<Seq<char>> {
        match self {
            PackEntry::Empty => None,
            PackEntry::Directory { name, .. } => Some(name@),
            PackEntry::File { name, .. } => Some(name@),
        }
    }

    /// Whether the entry is named `n`.
    pub fn has_name(&self, n: &String) -> (r: bool)
        ensures
            r == (self.spec_name() == Some(n@)),
    {
        match self {
            PackEntry::Empty => false,
            PackEntry::Directory { name, .. } => name.eq(n),
            PackEntry::File { name, .. } => name.eq(n),
        }
    }
}

/// One decoded block: its file offset, its entries and the offset of the next
/// block of the same chain, if any.
pub struct PackBlock {
    pub offset: u64,
    pub entries: Vec<PackEntry>,
    pub next_block: Option<u64>,
}

/// The complete entry list of one directory, gathered from all blocks of its
/// chain in file order.
pub struct PackBlockChain {
    /// The file offset of each block of the chain, in order.
    pub offsets: Vec<u64>,
    /// The entries of all blocks, in order.
    pub entries: Vec<PackEntry>,
}

impl View for PackBlockChain {
    type V = Seq<PackEntry>;

    open spec fn view(&self) -> Seq<PackEntry> {
        self.entries@
    }
}

/// Index of the first entry of `es` at or after `i` named `name`.
pub open spec fn find_from(es: Seq<PackEntry>, name: Seq<char>, i: int) -> Option<int>
    decreases es.len() - i,
{
    if i < 0 || i >= es.len() {
        None
    } else if es[i].spec_name() == Some(name) {
        Some(i)
    } else {
        find_from(es, name, i + 1)
    }
}

/// Index of the first entry of `es` named `name`.
pub open spec fn find_first(es: Seq<PackEntry>, name: Seq<char>) -> Option<int> {
    find_from(es, name, 0)
}

pub proof fn lemma_find_from_bounds(es: Seq<PackEntry>, name: Seq<char>, i: int)
    ensures
        find_from(es, name, i) matches Some(k) ==> i <= k < es.len()
            && es[k].spec_name() == Some(name),
    decreases es.len() - i,
{
    if 0 <= i < es.len() && es[i].spec_name() != Some(name) {
        lemma_find_from_bounds(es, name, i + 1);
    }
}

impl PackBlockChain {
    /// Index of the first entry named `name`, if any.
    pub fn find_entry(&self, name: &String) -> (r: Option<usize>)
        ensures
            match r {
                Some(k) => find_first(self@, name@) == Some(k as int) && k < self@.len()
                    && self@[k as int].spec_name() == Some(name@),
                None => find_first(self@, name@) is None,
            },
    {
        proof {
            lemma_find_from_bounds(self@, name@, 0);
        }
        let mut i: usize = 0;
        while i < self.entries.len()
            invariant
                0 <= i <= self.entries@.len(),
                find_first(self@, name@) == find_from(self@, name@, i as int),
            decreases self.entries@.len() - i,
        {
            if self.entries[i].has_name(name) {
                return Some(i);
            }
            i = i + 1;
        }
        None
    }
}

} // verus!
