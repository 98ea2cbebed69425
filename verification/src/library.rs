//! What the library of books knows of a book, and reading positions.

use vstd::prelude::*;

verus! {

/// The field by which the books of the library are ordered.
#[derive(Debug, Clone, Copy, PartialEq, Eq, Structural)]
pub enum SortField {
    Added,
    Modified,
    Title,
}

impl Default for SortField {
    fn default() -> (f: Self)
        ensures
            f == SortField::Added,
    {
        SortField::Added
    }
}

#[derive(Debug, Clone, Copy, PartialEq, Eq, Structural)]
pub enum SortDirection {
    Ascending,
    Descending,
}

impl Default for SortDirection {
    fn default() -> (d: Self)
        ensures
            d == SortDirection::Ascending,
    {
        SortDirection::Ascending
    }
}

#[derive(Debug, Clone, Copy, PartialEq, Eq, Structural)]
pub struct SortOrder(pub SortField, pub SortDirection);

impl Default for SortOrder {
    fn default() -> (o: Self)
        ensures
            o == SortOrder(SortField::Added, SortDirection::Ascending),
    {
        SortOrder(SortField::Added, SortDirection::Ascending)
    }
}

/// The number under which the records know a book.
#[derive(Debug, Clone, Copy, PartialEq, Eq, Structural, PartialOrd, Ord)]
pub struct BookId(pub i64);

impl BookId {
    pub fn value(&self) -> (v: i64)
        ensures
            v == self.0,
    {
        self.0
    }
}

/// A reading position: a chapter by its place in the spine, and an element
/// by its index.
#[derive(Debug, Clone, Copy, PartialEq, Eq, Structural)]
pub struct Location {
    pub spine: u32,
    pub element: u32,
}

/// The cover of a book in small.
#[derive(Debug, Clone)]
pub enum Thumbnail {
    /// The book has no cover.
    Absent,
    Bytes { bytes: Vec<u8> },
}

/// The bytes of a cover as they are stored.
#[derive(Debug)]
pub struct SecretThumbnail(pub Vec<u8>);

impl Thumbnail {
    /// The cover that was stored, if one was.
    pub fn from(value: Option<SecretThumbnail>) -> (t: Self)
        ensures
            t == (match value {
                Some(stored) => Thumbnail::Bytes { bytes: stored.0 },
                None => Thumbnail::Absent,
            }),
    {
        match value {
            Some(SecretThumbnail(bytes)) => Thumbnail::Bytes { bytes },
            None => Thumbnail::Absent,
        }
    }
}

} // verus!
