//! Classifications of boot modules.

use vstd::prelude::*;

verus! {

/// A statically linked executable image for a user domain.
pub const USER_ELF: u32 = 1;

/// The image of the first supervisor. Exactly one module may carry this kind.
pub const SUPERVISOR: u32 = 2;

} // verus!
