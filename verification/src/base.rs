//! Identifiers of files and source roots, and values that belong to a file.

use crate::text::TextRange;
use crate::text::TextSize;
use vstd::prelude::*;

verus! {

/// Identity of a file for as long as the file store knows it.
#[derive(Debug, Clone, Copy, PartialEq, Eq, Hash, Structural)]
pub struct FileId(pub u32);

/// Identity of a source root: its position in the list of roots.
#[derive(Debug, Clone, Copy, PartialEq, Eq, Hash, Structural)]
pub struct SourceRootId(pub u32);

/// A value that belongs to a file.
#[derive(Debug, PartialEq, Eq, Clone, Copy, Hash)]
pub struct InFile<T> {
    pub file_id: FileId,
    pub value: T,
}

impl<T> InFile<T> {
    pub fn new(file_id: FileId, value: T) -> (r: Self)
        ensures
            r.file_id == file_id,
            r.value == value,
    {
        Self { file_id, value }
    }

    /// The same file with `f` applied to the value.
    pub fn map<U, F: FnOnce(T) -> U>(self, f: F) -> (r: InFile<U>)
        requires
            f.requires((self.value,)),
        ensures
            r.file_id == self.file_id,
            f.ensures((self.value,), r.value),
    {
        InFile { file_id: self.file_id, value: f(self.value) }
    }
}

/// An offset in a file.
#[derive(Debug, PartialEq, Eq, Clone, Copy, Hash, Structural)]
pub struct FilePos {
    pub file_id: FileId,
    pub pos: TextSize,
}

impl FilePos {
    pub fn new(file_id: FileId, pos: TextSize) -> (r: Self)
        ensures
            r.file_id == file_id,
            r.pos == pos,
    {
        Self { file_id, pos }
    }
}

/// A range in a file.
#[derive(Debug, PartialEq, Eq, Clone, Copy, Hash, Structural)]
pub struct FileRange {
    pub file_id: FileId,
    pub range: TextRange,
}

impl FileRange {
    pub fn new(file_id: FileId, range: TextRange) -> (r: Self)
        ensures
            r.file_id == file_id,
            r.range == range,
    {
        Self { file_id, range }
    }
}

} // verus!
