//! The attribute bits of a changelog entry.

use vstd::prelude::*;

verus! {

pub const HAS_ZS_EXTENSION: u32 = 1;

pub const HAS_MC_EXTENSION: u32 = 2;

pub const IS_PRODUCT_FILE: u32 = 4;

} // verus!
