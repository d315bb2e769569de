//! The name of a declaration and where it was written.

use crate::errors::clone_file;
use std::ops::Range;
use url::Url;
use vstd::prelude::*;

verus! {

/// The name of a declaration, the file it came from if one is known, and the
/// byte range of the name in that source.
#[derive(Debug)]
pub struct Identifier {
    /// The name as written, used for lookup by name.
    pub name: String,
    /// The file that holds the declaration.
    pub file: Option<Url>,
    /// The byte range of the name.
    pub span: Range<usize>,
}

impl Clone for Identifier {
    /// A copy of the identifier: the same name, file and byte range.
    fn clone(&self) -> (copy: Self)
        ensures
            copy == *self,
    {
        Identifier {
            name: self.name.clone(),
            file: clone_file(&self.file),
            span: Range { start: self.span.start, end: self.span.end },
        }
    }
}

impl Identifier {
    /// An identifier with the given parts.
    pub fn new(name: String, file: Option<Url>, start: usize, end: usize) -> (id: Self)
        ensures
            id.name == name,
            id.file == file,
            id.span.start == start,
            id.span.end == end,
    {
        Identifier { name, file, span: Range { start, end } }
    }

    /// The place of this identifier: its file and byte range.
    pub fn place(&self) -> (place: (Option<Url>, Range<usize>))
        ensures
            place.0 == self.file,
            place.1.start == self.span.start,
            place.1.end == self.span.end,
    {
        (clone_file(&self.file), Range { start: self.span.start, end: self.span.end })
    }
}

} // verus!
