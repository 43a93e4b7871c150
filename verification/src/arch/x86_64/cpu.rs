//! Model-specific registers, control registers and feature identification.

use vstd::prelude::*;

verus! {

/// `IA32_EFER`.
pub const MSR_EFER: u32 = 0xC000_0080;

/// `IA32_STAR`: selectors of the system call instructions.
pub const MSR_STAR: u32 = 0xC000_0081;

/// `IA32_LSTAR`: entry point of `syscall`.
pub const MSR_LSTAR: u32 = 0xC000_0082;

/// `IA32_FMASK`: flags cleared on `syscall`.
pub const MSR_FMASK: u32 = 0xC000_0084;

/// `IA32_APIC_BASE`.
pub const MSR_APIC_BASE: u32 = 0x1B;

/// `IA32_FS_BASE`: the running user thread's own thread pointer.
pub const MSR_FS_BASE: u32 = 0xC000_0100;

/// `IA32_GS_BASE`: base of the `GS` segment at the current privilege level.
pub const MSR_GS_BASE: u32 = 0xC000_0101;

/// `IA32_KERNEL_GS_BASE`: the base `swapgs` exchanges with `IA32_GS_BASE`.
pub const MSR_KERNEL_GS_BASE: u32 = 0xC000_0102;

/// Base of the x2APIC register block.
pub const MSR_X2APIC_BASE: u32 = 0x800;

/// `IA32_EFER.SCE`, enables `syscall`.
pub const EFER_SCE: u64 = 0x1;

/// `IA32_EFER.NXE`, enables the no-execute page bit.
pub const EFER_NXE: u64 = 0x800;

/// `CR0.MP`, monitor coprocessor.
pub const CR0_MP: u64 = 0x2;

/// `CR0.EM`, emulation. Must be clear for SSE.
pub const CR0_EM: u64 = 0x4;

/// `CR0.TS`, task switched. Cleared: the state is saved eagerly.
pub const CR0_TS: u64 = 0x8;

/// `CR0.NE`, native x87 exception reporting.
pub const CR0_NE: u64 = 0x20;

/// `CR0.WP`, supervisor write protection.
pub const CR0_WP: u64 = 0x1_0000;

/// `CR0.NW`, not write-through. Must be clear for normal caching.
pub const CR0_NW: u64 = 0x2000_0000;

/// `CR0.CD`, cache disable. Must be clear for normal caching.
pub const CR0_CD: u64 = 0x4000_0000;

/// `CR4.OSFXSR`, enables SSE and its save area.
pub const CR4_OSFXSR: u64 = 0x200;

/// `CR4.OSXMMEXCPT`, unmasked SIMD exceptions are reported.
pub const CR4_OSXMMEXCPT: u64 = 0x400;

/// `CR4.PGE`, global pages.
pub const CR4_PGE: u64 = 0x80;

/// `CR4.SMEP`, supervisor mode execution prevention.
pub const CR4_SMEP: u64 = 0x10_0000;

/// `CR4.SMAP`, supervisor mode access prevention.
pub const CR4_SMAP: u64 = 0x20_0000;

/// Result of one `cpuid` leaf.
#[derive(Clone, Copy, Debug, PartialEq, Eq, Structural)]
pub struct Cpuid {
    /// EAX output.
    pub eax: u32,
    /// EBX output.
    pub ebx: u32,
    /// ECX output.
    pub ecx: u32,
    /// EDX output.
    pub edx: u32,
}

/// The leaves that feature detection reads. A leaf beyond the highest one the
/// processor has is not looked at.
#[derive(Clone, Copy, Debug, PartialEq, Eq, Structural)]
pub struct Leaves {
    /// Leaf 0: its EAX is the highest basic leaf.
    pub basic: Cpuid,
    /// Leaf 1.
    pub one: Cpuid,
    /// Leaf 7.
    pub seven: Cpuid,
    /// Leaf 0x0B.
    pub topology: Cpuid,
    /// Leaf 0x8000_0000: its EAX is the highest extended leaf.
    pub extended: Cpuid,
    /// Leaf 0x8000_0001.
    pub extended_one: Cpuid,
    /// Leaf 0x8000_0007.
    pub extended_seven: Cpuid,
}

/// The local APIC identifier of a processor, from its leaves.
///
/// The eight-bit initial identifier of leaf 1 is not the 32-bit identifier of
/// leaf 0x0B, and treating one as the other renames processors above 255.
pub fn apic_id_from_cpuid(x2apic: bool, leaves: &Leaves) -> (id: u32)
    ensures
        id == if x2apic && leaves.basic.eax >= 0x0B {
            leaves.topology.edx as int
        } else {
            leaves.one.ebx as int / 0x100_0000
        },
{
    if x2apic && leaves.basic.eax >= 0x0B {
        return leaves.topology.edx;
    }
    leaves.one.ebx / 0x100_0000
}

/// Feature bits the kernel checks before it commits to a platform profile.
#[derive(Clone, Copy, Debug, PartialEq, Eq, Structural)]
pub struct Features {
    /// Long mode.
    pub long_mode: bool,
    /// Time-stamp counter.
    pub tsc: bool,
    /// Model-specific registers.
    pub msr: bool,
    /// Physical address extension.
    pub pae: bool,
    /// Local APIC present.
    pub apic: bool,
    /// Global pages.
    pub pge: bool,
    /// Page attribute table.
    pub pat: bool,
    /// Legacy save area.
    pub fxsr: bool,
    /// SSE.
    pub sse: bool,
    /// SSE2.
    pub sse2: bool,
    /// No-execute page bit.
    pub nx: bool,
    /// `syscall`.
    pub syscall: bool,
    /// Pages of one gibibyte.
    pub page1gb: bool,
    /// Supervisor mode execution prevention.
    pub smep: bool,
    /// Supervisor mode access prevention.
    pub smap: bool,
    /// Time-stamp counter at a constant rate.
    pub invariant_tsc: bool,
    /// x2APIC.
    pub x2apic: bool,
}

/// Bit `n` of a word is set.
pub open spec fn bit_of(word: u32, n: u32) -> bool {
    word & (1u32 << n) != 0
}

fn has_bit(word: u32, n: u32) -> (yes: bool)
    requires
        n < 32,
    ensures
        yes == bit_of(word, n),
{
    word & (1u32 << n) != 0
}

impl Features {
    /// The features that leaves describe.
    pub open spec fn described(leaves: Leaves) -> Features {
        let one = leaves.one;
        let seven = leaves.basic.eax >= 7;
        let ext1 = leaves.extended.eax >= 0x8000_0001;
        let ext7 = leaves.extended.eax >= 0x8000_0007;
        Features {
            long_mode: ext1 && bit_of(leaves.extended_one.edx, 29),
            tsc: bit_of(one.edx, 4),
            msr: bit_of(one.edx, 5),
            pae: bit_of(one.edx, 6),
            apic: bit_of(one.edx, 9),
            pge: bit_of(one.edx, 13),
            pat: bit_of(one.edx, 16),
            fxsr: bit_of(one.edx, 24),
            sse: bit_of(one.edx, 25),
            sse2: bit_of(one.edx, 26),
            nx: ext1 && bit_of(leaves.extended_one.edx, 20),
            syscall: ext1 && bit_of(leaves.extended_one.edx, 11),
            page1gb: ext1 && bit_of(leaves.extended_one.edx, 26),
            smep: seven && bit_of(leaves.seven.ebx, 7),
            smap: seven && bit_of(leaves.seven.ebx, 20),
            invariant_tsc: ext7 && bit_of(leaves.extended_seven.edx, 8),
            x2apic: bit_of(one.ecx, 21),
        }
    }

    /// Reads every feature bit the profile depends on.
    pub fn detect(leaves: &Leaves) -> (features: Features)
        ensures
            features == Features::described(*leaves),
    {
        let one = leaves.one;
        let seven = leaves.basic.eax >= 7;
        let ext1 = leaves.extended.eax >= 0x8000_0001;
        let ext7 = leaves.extended.eax >= 0x8000_0007;
        Features {
            long_mode: ext1 && has_bit(leaves.extended_one.edx, 29),
            tsc: has_bit(one.edx, 4),
            msr: has_bit(one.edx, 5),
            pae: has_bit(one.edx, 6),
            apic: has_bit(one.edx, 9),
            pge: has_bit(one.edx, 13),
            pat: has_bit(one.edx, 16),
            fxsr: has_bit(one.edx, 24),
            sse: has_bit(one.edx, 25),
            sse2: has_bit(one.edx, 26),
            nx: ext1 && has_bit(leaves.extended_one.edx, 20),
            syscall: ext1 && has_bit(leaves.extended_one.edx, 11),
            page1gb: ext1 && has_bit(leaves.extended_one.edx, 26),
            smep: seven && has_bit(leaves.seven.ebx, 7),
            smap: seven && has_bit(leaves.seven.ebx, 20),
            invariant_tsc: ext7 && has_bit(leaves.extended_seven.edx, 8),
            x2apic: has_bit(one.ecx, 21),
        }
    }

    /// The processor has everything the profile cannot be established without.
    pub open spec fn suffices(self) -> bool {
        &&& self.long_mode
        &&& self.msr
        &&& self.pae
        &&& self.tsc
        &&& self.apic
        &&& self.fxsr
        &&& self.sse
        &&& self.sse2
        &&& self.nx
        &&& self.syscall
    }

    /// The first mandatory feature that is absent, or an empty text.
    pub open spec fn first_missing(self) -> Seq<char> {
        if !self.long_mode {
            "long_mode"@
        } else if !self.msr {
            "msr"@
        } else if !self.pae {
            "pae"@
        } else if !self.tsc {
            "tsc"@
        } else if !self.apic {
            "apic"@
        } else if !self.fxsr {
            "fxsr"@
        } else if !self.sse {
            "sse"@
        } else if !self.sse2 {
            "sse2"@
        } else if !self.nx {
            "nx"@
        } else if !self.syscall {
            "syscall"@
        } else {
            ""@
        }
    }

    /// Features without which the profile cannot be established at all. Absence
    /// is a refusal to run, never a silent downgrade.
    pub fn missing_mandatory(&self) -> (text: &'static str)
        ensures
            text@ == self.first_missing(),
            text@.len() == 0 <==> self.suffices(),
    {
        proof {
            reveal_strlit("long_mode");
            reveal_strlit("msr");
            reveal_strlit("pae");
            reveal_strlit("tsc");
            reveal_strlit("apic");
            reveal_strlit("fxsr");
            reveal_strlit("sse");
            reveal_strlit("sse2");
            reveal_strlit("nx");
            reveal_strlit("syscall");
            reveal_strlit("");
        }
        if !self.long_mode {
            "long_mode"
        } else if !self.msr {
            "msr"
        } else if !self.pae {
            "pae"
        } else if !self.tsc {
            "tsc"
        } else if !self.apic {
            "apic"
        } else if !self.fxsr {
            "fxsr"
        } else if !self.sse {
            "sse"
        } else if !self.sse2 {
            "sse2"
        } else if !self.nx {
            "nx"
        } else if !self.syscall {
            "syscall"
        } else {
            ""
        }
    }

    /// `CR4` with the protections the processor has.
    pub fn protected_cr4(&self, cr4: u64) -> (value: u64)
        ensures
            value == cr4 | (if self.smep {
                CR4_SMEP
            } else {
                0
            }) | (if self.smap {
                CR4_SMAP
            } else {
                0
            }),
    {
        let smep: u64 = if self.smep {
            CR4_SMEP
        } else {
            0
        };
        let smap: u64 = if self.smap {
            CR4_SMAP
        } else {
            0
        };
        cr4 | smep | smap
    }
}

} // verus!
