pub mod hierarchy;

use vstd::prelude::*;

verus! {

/// Identifier of a bone of the skeleton.
pub type BoneId = u8;

} // verus!
