//! Where a value sits in a BYML document, as merging tracks it.

use vstd::prelude::*;

verus! {

/// One step down a BYML document: a map key (by name or by hash) or an array
/// index.
#[derive(Debug, Clone, PartialEq, Eq, PartialOrd, Ord, Hash)]
pub enum Segment {
    Key(String),
    Hash32(u32),
    Hash64(u64),
    Index(usize),
}

/// Map keys that can name an array (only string keys do).
pub trait MapKeyName {
    fn array_name(&self) -> Option<&str>;
}

impl MapKeyName for String {
    fn array_name(&self) -> (r: Option<&str>)
        ensures
            r matches Some(s) && s@ == self@,
    {
        Some(self.as_str())
    }
}

impl MapKeyName for u32 {
    fn array_name(&self) -> (r: Option<&str>)
        ensures
            r is None,
    {
        None
    }
}

impl MapKeyName for u64 {
    fn array_name(&self) -> (r: Option<&str>)
        ensures
            r is None,
    {
        None
    }
}

} // verus!
