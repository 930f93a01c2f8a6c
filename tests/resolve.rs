use pk2::chain_map::ChainMap;
use pk2::entry::{PackBlockChain, PackEntry};
use pk2::error::Pk2Error;
use pk2::manager::{BlockManager, PK2_ROOT_BLOCK};

const A: u64 = 5376;
const B: u64 = 7936;
const ORPHAN: u64 = 10496;

fn dir(name: &str, pos: u64) -> PackEntry {
    PackEntry::Directory { name: name.to_string(), pos_children: pos }
}

fn file(name: &str, pos: u64, size: u32) -> PackEntry {
    PackEntry::File { name: name.to_string(), pos_data: pos, size }
}

fn chain(offset: u64, entries: Vec<PackEntry>) -> PackBlockChain {
    PackBlockChain { offsets: vec![offset], entries }
}

/// root -> dir "a" -> dir "b" -> file "c.txt"; "a" also holds the file "f".
/// The root has no ".." entry; ORPHAN's ".." points at a chain not indexed.
fn tree() -> BlockManager {
    let mut chains = ChainMap::new();
    chains.insert(
        PK2_ROOT_BLOCK,
        chain(PK2_ROOT_BLOCK, vec![dir(".", PK2_ROOT_BLOCK), PackEntry::Empty, dir("a", A)]),
    );
    chains.insert(
        A,
        chain(A, vec![dir(".", A), dir("..", PK2_ROOT_BLOCK), dir("b", B), file("f", 9000, 12)]),
    );
    chains.insert(B, chain(B, vec![dir(".", B), dir("..", A), file("c.txt", 9100, 3)]));
    chains.insert(ORPHAN, chain(ORPHAN, vec![dir(".", ORPHAN), dir("..", 77)]));
    BlockManager { chains }
}

fn path(p: &[&str]) -> Vec<String> {
    p.iter().map(|s| s.to_string()).collect()
}

fn not_found(r: &Pk2Error) -> Option<String> {
    match r {
        Pk2Error::NotFound(n) => Some(n.clone()),
        _ => None,
    }
}

fn not_a_dir(r: &Pk2Error) -> Option<String> {
    match r {
        Pk2Error::NotADirectory(n) => Some(n.clone()),
        _ => None,
    }
}

#[test]
fn empty_path_names_no_entry() {
    let m = tree();
    for start in [PK2_ROOT_BLOCK, A, B] {
        assert!(matches!(m.resolve_path_to_entry_and_parent(start, &path(&[])), Ok(None)));
    }
}

#[test]
fn empty_path_resolves_to_start() {
    let m = tree();
    assert_eq!(m.resolve_path_to_block_chain_index_at(A, &path(&[])).ok(), Some(A));
    let (c, rest) = m.validate_dir_path_until(B, &path(&[])).ok().unwrap();
    assert_eq!(c, B);
    assert!(rest.is_empty());
}

#[test]
fn nested_directory_resolves_to_its_chain() {
    let m = tree();
    assert_eq!(m.resolve_path_to_block_chain_index_at(PK2_ROOT_BLOCK, &path(&["a", "b"])).ok(), Some(B));
    assert_eq!(m.resolve_path_to_block_chain_index_at(B, &path(&["..", ".."])).ok(), Some(PK2_ROOT_BLOCK));
    assert_eq!(m.resolve_path_to_block_chain_index_at(A, &path(&[".", "b", "."])).ok(), Some(B));
}

#[test]
fn nested_file_resolves_to_parent_and_entry() {
    let m = tree();
    let r = m.resolve_path_to_entry_and_parent(PK2_ROOT_BLOCK, &path(&["a", "b", "c.txt"]));
    let (parent, entry) = r.ok().unwrap().unwrap();
    assert_eq!(parent.offsets, vec![B]);
    match entry {
        PackEntry::File { name, pos_data, size } => {
            assert_eq!(name, "c.txt");
            assert_eq!(*pos_data, 9100);
            assert_eq!(*size, 3);
        },
        _ => panic!("expected a file"),
    }
}

#[test]
fn directory_entry_resolves_with_its_parent() {
    let m = tree();
    let (parent, entry) =
        m.resolve_path_to_entry_and_parent(PK2_ROOT_BLOCK, &path(&["a", "b"])).ok().unwrap().unwrap();
    assert_eq!(parent.offsets, vec![A]);
    assert!(matches!(entry, PackEntry::Directory { pos_children: B, .. }));
}

#[test]
fn missing_leaf_is_not_found() {
    let m = tree();
    let e = m.resolve_path_to_entry_and_parent(PK2_ROOT_BLOCK, &path(&["a", "missing.txt"])).err().unwrap();
    assert_eq!(not_found(&e).as_deref(), Some("missing.txt"));
}

#[test]
fn missing_intermediate_is_not_found() {
    let m = tree();
    let e = m.resolve_path_to_entry_and_parent(PK2_ROOT_BLOCK, &path(&["x", "c.txt"])).err().unwrap();
    assert_eq!(not_found(&e).as_deref(), Some("x"));
    let e = m.resolve_path_to_block_chain_index_at(PK2_ROOT_BLOCK, &path(&["a", "q"])).err().unwrap();
    assert_eq!(not_found(&e).as_deref(), Some("q"));
}

#[test]
fn validate_returns_missing_suffix() {
    let m = tree();
    let (c, rest) = m.validate_dir_path_until(PK2_ROOT_BLOCK, &path(&["a", "x", "y"])).ok().unwrap();
    assert_eq!(c, A);
    assert_eq!(rest, path(&["x", "y"]));
}

#[test]
fn validate_existing_path_leaves_nothing() {
    let m = tree();
    let (c, rest) = m.validate_dir_path_until(PK2_ROOT_BLOCK, &path(&["a", "b"])).ok().unwrap();
    assert_eq!(c, B);
    assert!(rest.is_empty());
}

#[test]
fn validate_missing_first_component() {
    let m = tree();
    let (c, rest) = m.validate_dir_path_until(A, &path(&["new", "..", "z"])).ok().unwrap();
    assert_eq!(c, A);
    assert_eq!(rest, path(&["new", "..", "z"]));
}

#[test]
fn validate_unresolved_parent_is_denied() {
    let m = tree();
    let e = m.validate_dir_path_until(PK2_ROOT_BLOCK, &path(&["..", "x"])).err().unwrap();
    assert!(matches!(e, Pk2Error::BoundaryDenied));
    let e = m.validate_dir_path_until(PK2_ROOT_BLOCK, &path(&["a", "..", ".."])).err().unwrap();
    assert!(matches!(e, Pk2Error::BoundaryDenied));
}

#[test]
fn validate_resolvable_parent_is_walked() {
    let m = tree();
    let (c, rest) = m.validate_dir_path_until(B, &path(&["..", "x"])).ok().unwrap();
    assert_eq!(c, A);
    assert_eq!(rest, path(&["x"]));
}

#[test]
fn file_in_path_is_not_a_directory() {
    let m = tree();
    let e = m.resolve_path_to_block_chain_index_at(PK2_ROOT_BLOCK, &path(&["a", "f", "z"])).err().unwrap();
    assert_eq!(not_a_dir(&e).as_deref(), Some("f"));
    let e = m.validate_dir_path_until(PK2_ROOT_BLOCK, &path(&["a", "f", "z"])).err().unwrap();
    assert_eq!(not_a_dir(&e).as_deref(), Some("f"));
    let e = m.resolve_path_to_entry_and_parent(PK2_ROOT_BLOCK, &path(&["a", "f", "z"])).err().unwrap();
    assert_eq!(not_a_dir(&e).as_deref(), Some("f"));
    let e = m.validate_dir_path_until(PK2_ROOT_BLOCK, &path(&["a", "f"])).err().unwrap();
    assert_eq!(not_a_dir(&e).as_deref(), Some("f"));
}

#[test]
fn directory_with_missing_chain_is_followed() {
    let m = tree();
    assert_eq!(m.resolve_path_to_block_chain_index_at(ORPHAN, &path(&[".."])).ok(), Some(77));
    let (c, rest) = m.validate_dir_path_until(ORPHAN, &path(&[".."])).ok().unwrap();
    assert_eq!(c, 77);
    assert!(rest.is_empty());
}

#[test]
fn lookup_in_missing_chain_fails() {
    let m = tree();
    let e = m.resolve_path_to_block_chain_index_at(ORPHAN, &path(&["..", "x"])).err().unwrap();
    assert!(matches!(e, Pk2Error::MissingChain(77)));
    let e = m.validate_dir_path_until(ORPHAN, &path(&["..", "x"])).err().unwrap();
    assert!(matches!(e, Pk2Error::MissingChain(77)));
    let e = m.resolve_path_to_entry_and_parent(ORPHAN, &path(&["..", "x"])).err().unwrap();
    assert!(matches!(e, Pk2Error::MissingChain(77)));
}

#[test]
fn unknown_start_chain() {
    let m = tree();
    assert_eq!(m.resolve_path_to_block_chain_index_at(1, &path(&[])).ok(), Some(1));
    assert!(matches!(m.resolve_path_to_entry_and_parent(1, &path(&[])), Ok(None)));
    let e = m.resolve_path_to_entry_and_parent(1, &path(&["a"])).err().unwrap();
    assert!(matches!(e, Pk2Error::MissingChain(1)));
    let e = m.validate_dir_path_until(1, &path(&["a"])).err().unwrap();
    assert!(matches!(e, Pk2Error::MissingChain(1)));
}

#[test]
fn first_entry_of_a_name_decides() {
    let mut chains = ChainMap::new();
    chains.insert(
        PK2_ROOT_BLOCK,
        chain(PK2_ROOT_BLOCK, vec![file("d", 1, 1), dir("d", PK2_ROOT_BLOCK)]),
    );
    let m = BlockManager { chains };
    let e = m.resolve_path_to_block_chain_index_at(PK2_ROOT_BLOCK, &path(&["d"])).err().unwrap();
    assert_eq!(not_a_dir(&e).as_deref(), Some("d"));
}

#[test]
fn chain_lookup() {
    let m = tree();
    assert_eq!(m.chain(B).unwrap().entries.len(), 3);
    assert!(m.chain(1).is_none());
    assert_eq!(m.find_block_chain_index_in(PK2_ROOT_BLOCK, &"a".to_string()).ok(), Some(A));
}

#[test]
fn error_messages_name_the_component() {
    assert_eq!(Pk2Error::NotFound("x".to_string()).message(), "not found: x");
    assert_eq!(
        Pk2Error::NotADirectory("f".to_string()).message(),
        "expected a directory, found a file: f"
    );
    assert_eq!(Pk2Error::BoundaryDenied.message(), "the path is a parent of the root directory");
    assert_eq!(Pk2Error::Format.message(), "malformed block");
    assert_eq!(Pk2Error::Io.message(), "I/O failure");
    assert_eq!(
        Pk2Error::MissingChain(9).message(),
        "a directory links to a chain the index does not hold"
    );
}
