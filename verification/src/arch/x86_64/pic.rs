//! Legacy interrupt controllers.
//!
//! No interrupt is routed through them. They are still reprogrammed, because
//! firmware leaves them mapped over the exception vectors.

use vstd::prelude::*;

verus! {

/// Vector base the primary controller is remapped to.
pub const REMAP_BASE_PRIMARY: u8 = 0x20;

/// Vector base the secondary controller is remapped to.
pub const REMAP_BASE_SECONDARY: u8 = 0x28;

/// Both controllers deliver above the exception vectors, eight lines each.
pub proof fn remapped_above_exceptions()
    ensures
        REMAP_BASE_PRIMARY >= 32,
        REMAP_BASE_SECONDARY == REMAP_BASE_PRIMARY + 8,
{
}

/// The writes that remap both controllers away from the exception vectors and
/// mask every line: begin, vector bases, wiring of the cascade, mode, masks.
pub fn remap_and_mask() -> (writes: [(u16, u8); 10])
    ensures
        writes@ == seq![
            (0x20u16, 0x11u8),
            (0xA0u16, 0x11u8),
            (0x21u16, REMAP_BASE_PRIMARY),
            (0xA1u16, REMAP_BASE_SECONDARY),
            (0x21u16, 0x04u8),
            (0xA1u16, 0x02u8),
            (0x21u16, 0x01u8),
            (0xA1u16, 0x01u8),
            (0x21u16, 0xFFu8),
            (0xA1u16, 0xFFu8),
        ],
{
    let writes: [(u16, u8); 10] = [
        (0x20, 0x11),
        (0xA0, 0x11),
        (0x21, REMAP_BASE_PRIMARY),
        (0xA1, REMAP_BASE_SECONDARY),
        (0x21, 0x04),
        (0xA1, 0x02),
        (0x21, 0x01),
        (0xA1, 0x01),
        (0x21, 0xFF),
        (0xA1, 0xFF),
    ];
    assert(writes@ =~= seq![
        (0x20u16, 0x11u8),
        (0xA0u16, 0x11u8),
        (0x21u16, REMAP_BASE_PRIMARY),
        (0xA1u16, REMAP_BASE_SECONDARY),
        (0x21u16, 0x04u8),
        (0xA1u16, 0x02u8),
        (0x21u16, 0x01u8),
        (0xA1u16, 0x01u8),
        (0x21u16, 0xFFu8),
        (0xA1u16, 0xFFu8),
    ]);
    writes
}

} // verus!
