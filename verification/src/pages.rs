//! Blocks of pages, given by their first page and their length.
use vstd::prelude::*;
use std::ops::Range;

verus! {

/// A range of pages.
#[derive(Debug, PartialEq, Eq)]
pub struct PageRange(pub Range<usize>);

impl PageRange {
    /// The pages from `start` up to, not including, `end`.
    pub fn new(start: usize, end: usize) -> (r: PageRange)
        ensures
            r.0.start == start,
            r.0.end == end,
    {
        PageRange(start..end)
    }
}

/// A block of pages.
#[derive(Debug, PartialEq, Eq)]
pub struct Block {
    pages: PageRange,
}

impl Block {
    pub closed spec fn first(&self) -> usize {
        self.pages.0.start
    }

    pub closed spec fn after(&self) -> usize {
        self.pages.0.end
    }

    /// The `len` pages from `start` on.
    pub fn new(start: usize, len: usize) -> (r: Block)
        requires
            start + len <= usize::MAX,
        ensures
            r.first() == start,
            r.after() == start + len,
    {
        let pages = PageRange::new(start, start + len);
        Block { pages }
    }

    /// The first page.
    pub fn start(&self) -> (r: usize)
        ensures
            r == self.first(),
    {
        self.pages.0.start
    }

    /// The page after the last one.
    pub fn end(&self) -> (r: usize)
        ensures
            r == self.after(),
    {
        self.pages.0.end
    }

    /// The pages of the block.
    pub fn pages(&self) -> (r: &PageRange)
        ensures
            r.0.start == self.first(),
            r.0.end == self.after(),
    {
        &self.pages
    }
}

/// A block of `len` pages from `start` on.
pub fn mk_block(start: usize, len: usize) -> (r: Block)
    requires
        start + len <= usize::MAX,
    ensures
        r.first() == start,
        r.after() == start + len,
{
    Block::new(start, len)
}

/// What `multi_return` returns.
pub open spec fn multi_return_spec(i: i32) -> i32 {
    if i == 1 {
        11
    } else if i == 2 {
        22
    } else if i == 3 {
        33
    } else {
        0
    }
}

/// A function with a return in each of several branches.
pub fn multi_return(i: i32) -> (r: i32)
    ensures
        r == multi_return_spec(i),
{
    let taken = true;
    if i == 1 {
        if taken {
            return 11;
        } else {
            return 1;
        }
    }
    if i == 2 {
        if taken {
            return 11 * 2;
        } else {
            return 2;
        }
    }
    if i == 3 {
        if taken {
            return 30 + 3;
        } else {
            return 3;
        }
    }
    0
}

} // verus!
