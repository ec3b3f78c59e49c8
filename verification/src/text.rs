//! Ranges of text, as offsets in bytes.
use vstd::prelude::*;

verus! {

/// A range of text, from `start` (included) to `end` (excluded), in bytes.
#[derive(Clone, Copy, Debug, PartialEq, Eq, Hash, Structural)]
pub struct TextRange {
    pub start: u32,
    pub end: u32,
}

impl TextRange {
    pub fn new(start: u32, end: u32) -> (r: TextRange)
        ensures
            r.start == start,
            r.end == end,
    {
        TextRange { start, end }
    }

    /// The empty range at offset zero.
    pub fn empty() -> (r: TextRange)
        ensures
            r.start == 0,
            r.end == 0,
    {
        TextRange { start: 0, end: 0 }
    }
}

impl TextRange {
    /// The range that `default` gives: empty, at offset zero.
    pub open spec fn default_spec() -> TextRange {
        TextRange { start: 0, end: 0 }
    }
}

impl Default for TextRange {
    fn default() -> (r: TextRange)
        ensures
            r == TextRange::default_spec(),
    {
        TextRange::empty()
    }
}

} // verus!
