//! x87 and SSE state.
//!
//! The whole legacy area is saved and restored eagerly on every switch: lazy
//! switching is exactly the mechanism that has leaked register contents between
//! protection domains.

use vstd::prelude::*;

use crate::arch::x86_64::cpu;

verus! {

/// Legacy save area.
#[derive(Clone, Copy, Debug)]
pub struct FpuState {
    /// Its bytes.
    pub bytes: [u8; 512],
}

impl FpuState {
    /// A zeroed area. Not a legal restore image.
    pub fn zeroed() -> (state: FpuState)
        ensures
            forall|i: int| 0 <= i < 512 ==> #[trigger] state.bytes@[i] == 0,
    {
        FpuState { bytes: [0; 512] }
    }
}

/// Default control word: every SIMD exception masked, round to nearest.
pub const DEFAULT_MXCSR: u32 = 0x1F80;

/// `CR0` and `CR4` with x87 and SSE enabled and emulation and lazy switching
/// off.
pub fn control(cr0: u64, cr4: u64) -> (values: (u64, u64))
    ensures
        values.0 == cr0 & !(cpu::CR0_EM | cpu::CR0_TS) | (cpu::CR0_MP | cpu::CR0_NE),
        values.1 == cr4 | cpu::CR4_OSFXSR | cpu::CR4_OSXMMEXCPT,
{
    (
        cr0 & !(cpu::CR0_EM | cpu::CR0_TS) | (cpu::CR0_MP | cpu::CR0_NE),
        cr4 | cpu::CR4_OSFXSR | cpu::CR4_OSXMMEXCPT,
    )
}

/// With x87 and SSE enabled, switching is eager: no access is trapped.
pub proof fn switching_is_eager(cr0: u64)
    ensures
        (cr0 & !(cpu::CR0_EM | cpu::CR0_TS) | (cpu::CR0_MP | cpu::CR0_NE)) & (cpu::CR0_EM
            | cpu::CR0_TS) == 0,
{
    assert((cr0 & !(0x4u64 | 0x8u64) | (0x2u64 | 0x20u64)) & (0x4u64 | 0x8u64) == 0) by (bit_vector);
}

} // verus!
