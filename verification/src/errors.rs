use vstd::prelude::*;

verus! {

/// Typed failures of the catalog store and of the filesystem scanner.
///
/// Entity and association services surface these to their caller without
/// local recovery; none of them is retried.
#[derive(Debug, Clone, PartialEq, Eq)]
pub enum CatalogError {
    /// No row matched the given key.
    NotFound,
    /// An insert reported success but the following re-fetch by natural key
    /// found no row (a read-after-write visibility problem).
    NotFoundAfterInsert,
    /// The insert itself failed: a uniqueness violation or a store-level
    /// failure such as an exhausted id space.
    DuplicateOrStoreError,
    /// The (document, tag) or (document, genre) pair is already linked.
    AlreadyLinked,
    /// A foreign key refers to a row that does not exist.
    DanglingReference,
    /// A delete by primary key matched more than one row; fatal to the
    /// operation, never retried.
    AmbiguousDelete,
    /// The underlying storage could not be opened.
    StoreUnavailable,
    /// A scan was asked of a path that is a plain file, not a directory.
    NotADirectory,
    /// Reading a directory failed; the payload names the failing path.
    ScanError(String),
}

} // verus!
