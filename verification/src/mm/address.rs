//! Virtual addresses.

use crate::config::PAGE_SIZE;
use vstd::prelude::*;
use vstd::std_specs::convert::FromSpecImpl;

verus! {

/// A virtual address, in bytes.
#[derive(Clone, Copy, Debug, PartialEq, Eq, Structural)]
pub struct VirtAddr(pub usize);

impl From<usize> for VirtAddr {
    fn from(v: usize) -> (r: Self) {
        VirtAddr(v)
    }
}

impl FromSpecImpl<usize> for VirtAddr {
    open spec fn obeys_from_spec() -> bool {
        true
    }

    open spec fn from_spec(v: usize) -> Self {
        VirtAddr(v)
    }
}

impl VirtAddr {
    /// The number of the page that holds this address.
    pub open spec fn spec_floor(self) -> int {
        self.0 as int / PAGE_SIZE as int
    }

    /// Whether the address is the first byte of a page.
    pub open spec fn spec_aligned(self) -> bool {
        self.0 as int % PAGE_SIZE as int == 0
    }

    /// Offset of the address inside its page.
    pub fn page_offset(&self) -> (r: usize)
        ensures
            r == self.0 % PAGE_SIZE,
            (r == 0) == self.spec_aligned(),
    {
        self.0 % PAGE_SIZE
    }

    /// The number of the page that holds this address.
    pub fn floor(&self) -> (r: usize)
        ensures
            r == self.spec_floor(),
    {
        self.0 / PAGE_SIZE
    }

    /// Whether the address is the first byte of a page.
    pub fn aligned(&self) -> (r: bool)
        ensures
            r == self.spec_aligned(),
    {
        self.page_offset() == 0
    }
}

} // verus!
