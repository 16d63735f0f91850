//! A minimal container value that groups regions with descriptive metadata.
//!
//! The outer file envelope (compression, header, versioning) is not this
//! library's concern; this value only carries what a region contributes to
//! it.

use crate::region::Region;
use vstd::prelude::*;

verus! {

/// A named container of regions with descriptive metadata.
pub struct Litematic {
    pub name: String,
    pub description: String,
    pub author: String,
    pub regions: Vec<Region>,
}

impl Litematic {
    /// An empty container with the given metadata.
    pub fn new(name: String, description: String, author: String) -> (r: Litematic)
        ensures
            r.name@ == name@,
            r.description@ == description@,
            r.author@ == author@,
            r.regions@.len() == 0,
    {
        Litematic { name, description, author, regions: Vec::new() }
    }
}

} // verus!
