//! Source locations: a file and a range of byte offsets in it.
use vstd::prelude::*;

verus! {

/// The identity of a source file, handed out by `Files::add`.
#[derive(Clone, Copy, Debug, PartialEq, Eq, Structural, Hash, PartialOrd, Ord)]
pub struct FileId {
    pub index: u32,
}

/// A range `start..end` of byte offsets in one file.
#[derive(Clone, Copy, Debug, PartialEq, Eq, Structural, Hash)]
pub struct Span {
    pub file: FileId,
    pub start: u32,
    pub end: u32,
}

/// The smallest span of `a`'s file that covers both spans.
pub open spec fn join_spans(a: Span, b: Span) -> Span {
    Span {
        file: a.file,
        start: if a.start <= b.start {
            a.start
        } else {
            b.start
        },
        end: if a.end >= b.end {
            a.end
        } else {
            b.end
        },
    }
}

impl Span {
    pub fn new(file: FileId, start: u32, end: u32) -> (r: Self)
        ensures
            r == (Span { file, start, end }),
    {
        Span { file, start, end }
    }

    /// The smallest span of `self`'s file that covers both spans.
    pub fn join(self, other: Span) -> (r: Span)
        ensures
            r == join_spans(self, other),
            r.file == self.file,
            r.start == if self.start <= other.start { self.start } else { other.start },
            r.end == if self.end >= other.end { self.end } else { other.end },
    {
        let start = if self.start <= other.start { self.start } else { other.start };
        let end = if self.end >= other.end { self.end } else { other.end };
        Span { file: self.file, start, end }
    }
}

} // verus!
