use vstd::prelude::*;

verus! {

/// What can go wrong while loading an archive or resolving a path in it.
pub enum Pk2Error {
    /// The byte source failed to seek or read.
    Io,
    /// A block's decrypted bytes are not a valid block.
    Format,
    /// A path component names no entry of the directory searched.
    NotFound(String),
    /// A path component names a file where a directory was required.
    NotADirectory(String),
    /// A path walks above the directory it started from.
    BoundaryDenied,
    /// A directory links to a chain at this offset that the index does not hold.
    MissingChain(u64),
}

/// The mathematical model of [`Pk2Error`].
pub ghost enum Fault {
    Io,
    Format,
    NotFound(Seq<char>),
    NotADirectory(Seq<char>),
    BoundaryDenied,
    MissingChain(u64),
}

impl View for Pk2Error {
    type V = Fault;

    open spec fn view(&self) -> Fault {
        match self {
            Pk2Error::Io => Fault::Io,
            Pk2Error::Format => Fault::Format,
            Pk2Error::NotFound(n) => Fault::NotFound(n@),
            Pk2Error::NotADirectory(n) => Fault::NotADirectory(n@),
            Pk2Error::BoundaryDenied => Fault::BoundaryDenied,
            Pk2Error::MissingChain(o) => Fault::MissingChain(*o),
        }
    }
}

impl Pk2Error {
    /// A human-readable description of the error.
    pub fn message(&self) -> (r: String) {
        match self {
            Pk2Error::Io => String::from_str("I/O failure"),
            Pk2Error::Format => String::from_str("malformed block"),
            Pk2Error::NotFound(n) => String::from_str("not found: ").concat(n.as_str()),
            Pk2Error::NotADirectory(n) => String::from_str("expected a directory, found a file: ").concat(n.as_str()),
            Pk2Error::BoundaryDenied => String::from_str("the path is a parent of the root directory"),
            Pk2Error::MissingChain(_) => String::from_str("a directory links to a chain the index does not hold"),
        }
    }
}

} // verus!
