//! How chunks compare: by call, then by index. The rest of a chunk does not
//! count, so two chunks are equal when they claim the same place in the same
//! call.

use core::cmp::Ordering;
use vstd::prelude::*;

use crate::protocol::types::ChunkHeader;
use crate::protocol::types::ChunkHeaderView;
use crate::protocol::types::PackageChunk;

verus! {

/// The order of two headers: by call id, then by index.
pub open spec fn header_order(a: ChunkHeaderView, b: ChunkHeaderView) -> Ordering {
    if a.call_id < b.call_id {
        Ordering::Less
    } else if a.call_id > b.call_id {
        Ordering::Greater
    } else if a.index < b.index {
        Ordering::Less
    } else if a.index > b.index {
        Ordering::Greater
    } else {
        Ordering::Equal
    }
}

impl PartialEq for ChunkHeader {
    fn eq(&self, other: &Self) -> (r: bool) {
        self.call_id() == other.call_id() && self.index() == other.index()
    }
}

impl vstd::std_specs::cmp::PartialEqSpecImpl for ChunkHeader {
    open spec fn obeys_eq_spec() -> bool {
        true
    }

    open spec fn eq_spec(&self, other: &Self) -> bool {
        self@.call_id == other@.call_id && self@.index == other@.index
    }
}

impl Eq for ChunkHeader {

}

impl PartialOrd for ChunkHeader {
    fn partial_cmp(&self, other: &Self) -> (r: Option<Ordering>) {
        if self.call_id() < other.call_id() {
            Some(Ordering::Less)
        } else if self.call_id() > other.call_id() {
            Some(Ordering::Greater)
        } else if self.index() < other.index() {
            Some(Ordering::Less)
        } else if self.index() > other.index() {
            Some(Ordering::Greater)
        } else {
            Some(Ordering::Equal)
        }
    }
}

impl vstd::std_specs::cmp::PartialOrdSpecImpl for ChunkHeader {
    open spec fn obeys_partial_cmp_spec() -> bool {
        true
    }

    open spec fn partial_cmp_spec(&self, other: &Self) -> Option<Ordering> {
        Some(header_order(self@, other@))
    }
}

impl PartialEq for PackageChunk {
    fn eq(&self, other: &Self) -> (r: bool) {
        self.header() == other.header()
    }
}

impl vstd::std_specs::cmp::PartialEqSpecImpl for PackageChunk {
    open spec fn obeys_eq_spec() -> bool {
        true
    }

    open spec fn eq_spec(&self, other: &Self) -> bool {
        self@.header.call_id == other@.header.call_id && self@.header.index == other@.header.index
    }
}

impl Eq for PackageChunk {

}

impl PartialOrd for PackageChunk {
    fn partial_cmp(&self, other: &Self) -> (r: Option<Ordering>) {
        self.header().partial_cmp(other.header())
    }
}

impl vstd::std_specs::cmp::PartialOrdSpecImpl for PackageChunk {
    open spec fn obeys_partial_cmp_spec() -> bool {
        true
    }

    open spec fn partial_cmp_spec(&self, other: &Self) -> Option<Ordering> {
        Some(header_order(self@.header, other@.header))
    }
}

} // verus!
