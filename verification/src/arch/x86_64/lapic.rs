//! Local APIC: the interrupt controller, the preemption timer and the way one
//! processor reaches another.
//!
//! There are two register interfaces. In xAPIC mode the registers are a page of
//! memory; in x2APIC mode they are model-specific registers, the command
//! register is a single 64-bit write with a 32-bit destination.

use vstd::prelude::*;

use crate::arch::x86_64::cpu::MSR_X2APIC_BASE;
use crate::arch::x86_64::pit;

verus! {

/// Identifier register.
pub const REG_ID: u32 = 0x020;

/// Version register.
pub const REG_VERSION: u32 = 0x030;

/// End-of-interrupt register.
pub const REG_EOI: u32 = 0x0B0;

/// Spurious-interrupt register.
pub const REG_SPURIOUS: u32 = 0x0F0;

/// Low half of the command register.
pub const REG_ICR_LOW: u32 = 0x300;

/// High half of the command register.
pub const REG_ICR_HIGH: u32 = 0x310;

/// Timer vector register.
pub const REG_LVT_TIMER: u32 = 0x320;

/// First local pin.
pub const REG_LVT_LINT0: u32 = 0x350;

/// Second local pin.
pub const REG_LVT_LINT1: u32 = 0x360;

/// Error vector register.
pub const REG_LVT_ERROR: u32 = 0x370;

/// Initial count of the timer.
pub const REG_TIMER_INITIAL: u32 = 0x380;

/// Current count of the timer.
pub const REG_TIMER_CURRENT: u32 = 0x390;

/// Divider of the timer.
pub const REG_TIMER_DIVIDE: u32 = 0x3E0;

/// A vector register that raises nothing.
pub const LVT_MASKED: u32 = 0x1_0000;

/// A timer that starts over.
pub const LVT_PERIODIC: u32 = 0x2_0000;

/// Enables the controller.
pub const SPURIOUS_ENABLE: u32 = 0x100;

/// Divide by sixteen.
pub const DIVIDE_BY_16: u32 = 0x3;

/// `IA32_APIC_BASE`: the controller is enabled.
pub const APIC_BASE_ENABLE: u64 = 0x800;

/// `IA32_APIC_BASE`: the controller is in x2APIC mode.
pub const APIC_BASE_X2APIC: u64 = 0x400;

/// `IA32_APIC_BASE`: address of the register page.
pub const APIC_BASE_ADDRESS_MASK: u64 = 0x000F_FFFF_FFFF_F000;

/// Delivery mode: INIT.
pub const ICR_INIT: u32 = 0x500;

/// Delivery mode: start-up.
pub const ICR_STARTUP: u32 = 0x600;

/// Level bit, set for everything except an INIT de-assert.
pub const ICR_ASSERT: u32 = 0x4000;

/// Trigger mode: level.
pub const ICR_LEVEL: u32 = 0x8000;

/// Delivery status, xAPIC only: set while the interrupt is still being sent.
pub const ICR_DELIVERY_PENDING: u32 = 0x1000;

/// Which register interface the machine uses.
#[derive(Clone, Copy, PartialEq, Eq, Debug, Structural)]
pub enum Backend {
    /// Memory-mapped registers.
    XApic,
    /// Model-specific registers with a 32-bit destination.
    X2Apic,
}

impl Backend {
    /// Short name used in diagnostic records.
    pub fn name(self) -> (text: &'static str)
        ensures
            text@ == match self {
                Backend::XApic => "xapic"@,
                Backend::X2Apic => "x2apic"@,
            },
    {
        match self {
            Backend::XApic => "xapic",
            Backend::X2Apic => "x2apic",
        }
    }
}

/// The values to write to `IA32_APIC_BASE`, in order, to reach an interface.
///
/// Going from x2APIC straight to xAPIC raises a fault, so a transition in that
/// direction goes through the disabled state. Reaching x2APIC needs no detour.
pub fn enable_local(value: u64, want_x2apic: bool) -> (writes: (Option<u64>, u64))
    ensures
        ({
            let leaving = value & APIC_BASE_X2APIC != 0 && !want_x2apic;
            &&& writes.0 == if leaving {
                Some(value & !(APIC_BASE_X2APIC | APIC_BASE_ENABLE))
            } else {
                None::<u64>
            }
            &&& writes.1 == if leaving {
                value & !APIC_BASE_X2APIC | APIC_BASE_ENABLE
            } else if want_x2apic {
                value | APIC_BASE_ENABLE | APIC_BASE_X2APIC
            } else {
                value | APIC_BASE_ENABLE
            }
        }),
{
    if value & APIC_BASE_X2APIC != 0 && !want_x2apic {
        return (
            Some(value & !(APIC_BASE_X2APIC | APIC_BASE_ENABLE)),
            value & !APIC_BASE_X2APIC | APIC_BASE_ENABLE,
        );
    }
    let wanted: u64 = value | APIC_BASE_ENABLE;
    if want_x2apic {
        (None, wanted | APIC_BASE_X2APIC)
    } else {
        (None, wanted)
    }
}

/// Result of the frequency measurement.
#[derive(Clone, Copy, Debug, PartialEq, Eq, Structural)]
pub struct Calibration {
    /// Timer ticks per second after the divider.
    pub lapic_hz: u64,
    /// Time-stamp counter ticks per second.
    pub tsc_hz: u64,
    /// Nanoseconds the measurement window covered.
    pub window_ns: u64,
}

/// What a measurement over `pit_ticks` of the reference says.
pub open spec fn measured(pit_ticks: u64, lapic_remaining: u32, tsc_ticks: u64) -> Calibration {
    let window = pit_ticks * 1_000_000_000 / pit::FREQUENCY as int;
    Calibration {
        lapic_hz: if window == 0 {
            0
        } else {
            ((u32::MAX - lapic_remaining) * 1_000_000_000 / window) as u64
        },
        tsc_hz: if window == 0 {
            0
        } else {
            (tsc_ticks * 1_000_000_000 / window) as u64
        },
        window_ns: window as u64,
    }
}

/// Derives the timer and time-stamp counter frequencies from a measurement that
/// started with the timer at its highest count.
pub fn calibrate(pit_ticks: u16, lapic_remaining: u32, tsc_ticks: u64) -> (calibration: Calibration)
    requires
        tsc_ticks <= 18_446_744_073,
    ensures
        calibration == measured(pit_ticks as u64, lapic_remaining, tsc_ticks),
{
    let window_ns: u64 = pit_ticks as u64 * 1_000_000_000 / pit::FREQUENCY;
    let lapic_ticks: u64 = (u32::MAX - lapic_remaining) as u64;
    if window_ns == 0 {
        return Calibration { lapic_hz: 0, tsc_hz: 0, window_ns };
    }
    let lapic_total: u64 = lapic_ticks * 1_000_000_000;
    let tsc_total: u64 = tsc_ticks * 1_000_000_000;
    proof {
        vstd::arithmetic::div_mod::lemma_div_is_ordered_by_denominator(
            lapic_total as int,
            1,
            window_ns as int,
        );
        vstd::arithmetic::div_mod::lemma_div_is_ordered_by_denominator(
            tsc_total as int,
            1,
            window_ns as int,
        );
    }
    Calibration { lapic_hz: lapic_total / window_ns, tsc_hz: tsc_total / window_ns, window_ns }
}

/// Time-stamp counter ticks in a window.
pub fn window_ticks(tsc_hz: u64, window_ns: u64) -> (ticks: u64)
    ensures
        ticks == (tsc_hz * window_ns / 1_000_000_000) % 0x1_0000_0000_0000_0000,
{
    assert(tsc_hz * window_ns <= 0xFFFF_FFFF_FFFF_FFFF * 0xFFFF_FFFF_FFFF_FFFF)
        by (nonlinear_arith)
        requires
            tsc_hz <= 0xFFFF_FFFF_FFFF_FFFF,
            window_ns <= 0xFFFF_FFFF_FFFF_FFFF,
    ;
    let wide: u128 = tsc_hz as u128 * window_ns as u128 / 1_000_000_000;
    (wide % 0x1_0000_0000_0000_0000) as u64
}

/// Timer frequency of a processor that measured its timer against the
/// time-stamp counter.
///
/// An application processor cannot take the reference timer: two processors
/// driving it at once would measure each other.
pub fn calibrate_against_tsc(tsc_hz: u64, remaining: u32, elapsed: u64) -> (hz: u64)
    ensures
        hz == if elapsed == 0 {
            0
        } else {
            ((u32::MAX - remaining) * tsc_hz / elapsed as int) % 0x1_0000_0000_0000_0000
        },
{
    if elapsed == 0 {
        return 0;
    }
    let lapic_ticks: u64 = (u32::MAX - remaining) as u64;
    assert(lapic_ticks * tsc_hz <= 0xFFFF_FFFF * 0xFFFF_FFFF_FFFF_FFFF) by (nonlinear_arith)
        requires
            lapic_ticks <= 0xFFFF_FFFF,
            tsc_hz <= 0xFFFF_FFFF_FFFF_FFFF,
    ;
    let wide: u128 = lapic_ticks as u128 * tsc_hz as u128 / elapsed as u128;
    (wide % 0x1_0000_0000_0000_0000) as u64
}

/// Initial count that makes the timer fire `tick_hz` times a second.
pub fn timer_count(lapic_hz: u64, tick_hz: u64) -> (count: u32)
    requires
        tick_hz > 0,
    ensures
        count == if lapic_hz / tick_hz == 0 {
            1
        } else if lapic_hz / tick_hz > u32::MAX {
            u32::MAX as int
        } else {
            lapic_hz as int / tick_hz as int
        },
{
    let ticks: u64 = lapic_hz / tick_hz;
    if ticks == 0 {
        1
    } else if ticks > 0xFFFF_FFFF {
        u32::MAX
    } else {
        ticks as u32
    }
}

/// A write to a register of the controller.
#[derive(Clone, Copy, Debug, PartialEq, Eq, Structural)]
pub struct Write {
    /// The register.
    pub register: u32,
    /// The value.
    pub value: u32,
}

/// A local APIC, reachable through whichever interface the machine uses.
#[derive(Clone, Copy, Debug, PartialEq, Eq, Structural)]
pub struct Lapic {
    /// The interface.
    pub backend: Backend,
    /// The register page, for the interface that has one.
    pub base: u64,
}

/// What the command register takes for a destination and a command.
#[derive(Clone, Copy, Debug, PartialEq, Eq, Structural)]
pub enum Command {
    /// The high half, then the low half.
    Halves(u32, u32),
    /// One write.
    Whole(u64),
}

/// The command for a destination.
pub open spec fn command_of(backend: Backend, destination: u32, low: u32) -> Command {
    match backend {
        Backend::XApic => Command::Halves(destination << 24, low),
        Backend::X2Apic => Command::Whole((destination * 0x1_0000_0000 + low) as u64),
    }
}

impl Lapic {
    /// Binds to an interface.
    pub fn new(backend: Backend, base: u64) -> (lapic: Lapic)
        ensures
            lapic.backend == backend,
            lapic.base == base,
    {
        Lapic { backend, base }
    }

    /// Which interface this handle uses.
    pub fn backend(&self) -> (backend: Backend)
        ensures
            backend == self.backend,
    {
        self.backend
    }

    /// Model-specific register that stands for a register in x2APIC mode.
    pub fn msr(register: u32) -> (index: u32)
        requires
            register < 0x1000,
        ensures
            index == MSR_X2APIC_BASE + register / 16,
    {
        MSR_X2APIC_BASE + register / 16
    }

    /// Identifier of the processor, from what its identifier register holds.
    ///
    /// One interface keeps an eight-bit identifier in the top byte, the other a
    /// full one. Shifting the second would rename every processor above 255.
    pub fn id(&self, raw: u32) -> (id: u32)
        ensures
            id == match self.backend {
                Backend::XApic => raw / 0x100_0000,
                Backend::X2Apic => raw,
            },
    {
        match self.backend {
            Backend::XApic => raw / 0x100_0000,
            Backend::X2Apic => raw,
        }
    }

    /// The writes that enable the controller, mask the local pins and leave the
    /// timer stopped.
    pub fn configure(&self, spurious_vector: u8) -> (writes: [Write; 7])
        ensures
            writes@ == seq![
                Write {
                    register: REG_SPURIOUS,
                    value: SPURIOUS_ENABLE | spurious_vector as u32,
                },
                Write { register: REG_LVT_LINT0, value: LVT_MASKED },
                Write { register: REG_LVT_LINT1, value: LVT_MASKED },
                Write { register: REG_LVT_ERROR, value: LVT_MASKED },
                Write { register: REG_LVT_TIMER, value: LVT_MASKED },
                Write { register: REG_TIMER_INITIAL, value: 0 },
                Write { register: REG_TIMER_DIVIDE, value: DIVIDE_BY_16 },
            ],
    {
        let writes: [Write; 7] = [
            Write { register: REG_SPURIOUS, value: SPURIOUS_ENABLE | spurious_vector as u32 },
            Write { register: REG_LVT_LINT0, value: LVT_MASKED },
            Write { register: REG_LVT_LINT1, value: LVT_MASKED },
            Write { register: REG_LVT_ERROR, value: LVT_MASKED },
            Write { register: REG_LVT_TIMER, value: LVT_MASKED },
            Write { register: REG_TIMER_INITIAL, value: 0 },
            Write { register: REG_TIMER_DIVIDE, value: DIVIDE_BY_16 },
        ];
        assert(writes@ =~= seq![
            Write { register: REG_SPURIOUS, value: SPURIOUS_ENABLE | spurious_vector as u32 },
            Write { register: REG_LVT_LINT0, value: LVT_MASKED },
            Write { register: REG_LVT_LINT1, value: LVT_MASKED },
            Write { register: REG_LVT_ERROR, value: LVT_MASKED },
            Write { register: REG_LVT_TIMER, value: LVT_MASKED },
            Write { register: REG_TIMER_INITIAL, value: 0 },
            Write { register: REG_TIMER_DIVIDE, value: DIVIDE_BY_16 },
        ]);
        writes
    }

    fn command(&self, destination: u32, low: u32) -> (command: Command)
        ensures
            command == command_of(self.backend, destination, low),
    {
        match self.backend {
            Backend::XApic => Command::Halves(destination << 24, low),
            Backend::X2Apic => Command::Whole(destination as u64 * 0x1_0000_0000 + low as u64),
        }
    }

    /// A fixed-vector interrupt to one processor.
    pub fn send_fixed(&self, destination: u32, vector: u8) -> (command: Command)
        ensures
            command == command_of(self.backend, destination, ICR_ASSERT | vector as u32),
    {
        self.command(destination, ICR_ASSERT | vector as u32)
    }

    /// The INIT assert and de-assert that reset a processor into its
    /// wait-for-start-up state.
    pub fn send_init(&self, destination: u32) -> (commands: (Command, Command))
        ensures
            commands.0 == command_of(self.backend, destination, ICR_INIT | ICR_ASSERT),
            commands.1 == command_of(self.backend, destination, ICR_INIT | ICR_LEVEL),
    {
        (
            self.command(destination, ICR_INIT | ICR_ASSERT),
            self.command(destination, ICR_INIT | ICR_LEVEL),
        )
    }

    /// A start-up interrupt naming the page the target begins executing.
    pub fn send_startup(&self, destination: u32, page: u8) -> (command: Command)
        ensures
            command == command_of(
                self.backend,
                destination,
                ICR_STARTUP | ICR_ASSERT | page as u32,
            ),
    {
        self.command(destination, ICR_STARTUP | ICR_ASSERT | page as u32)
    }

    /// The writes that start the periodic timer.
    pub fn start_periodic(&self, vector: u8, initial_count: u32) -> (writes: [Write; 3])
        ensures
            writes@ == seq![
                Write { register: REG_TIMER_DIVIDE, value: DIVIDE_BY_16 },
                Write { register: REG_LVT_TIMER, value: LVT_PERIODIC | vector as u32 },
                Write { register: REG_TIMER_INITIAL, value: initial_count },
            ],
    {
        let writes: [Write; 3] = [
            Write { register: REG_TIMER_DIVIDE, value: DIVIDE_BY_16 },
            Write { register: REG_LVT_TIMER, value: LVT_PERIODIC | vector as u32 },
            Write { register: REG_TIMER_INITIAL, value: initial_count },
        ];
        assert(writes@ =~= seq![
            Write { register: REG_TIMER_DIVIDE, value: DIVIDE_BY_16 },
            Write { register: REG_LVT_TIMER, value: LVT_PERIODIC | vector as u32 },
            Write { register: REG_TIMER_INITIAL, value: initial_count },
        ]);
        writes
    }

    /// The write that signals the end of an interrupt.
    pub fn end_of_interrupt(&self) -> (write: Write)
        ensures
            write == (Write { register: REG_EOI, value: 0 }),
    {
        Write { register: REG_EOI, value: 0 }
    }
}

/// The installed interface as one number: zero until there is one.
pub open spec fn installed(backend: Option<Backend>) -> u8 {
    match backend {
        None => 0,
        Some(Backend::XApic) => 1,
        Some(Backend::X2Apic) => 2,
    }
}

/// The number under which an interface is installed.
pub fn install(backend: Backend) -> (number: u8)
    ensures
        number == installed(Some(backend)),
{
    match backend {
        Backend::XApic => 1,
        Backend::X2Apic => 2,
    }
}

/// The controller, if an interface has been installed and, where it has a
/// register page, that page is known.
pub fn current(number: u8, base: u64) -> (lapic: Option<Lapic>)
    ensures
        lapic == if number == installed(Some(Backend::XApic)) && base != 0 {
            Some(Lapic { backend: Backend::XApic, base })
        } else if number == installed(Some(Backend::X2Apic)) {
            Some(Lapic { backend: Backend::X2Apic, base })
        } else {
            None::<Lapic>
        },
{
    if number == 1 && base != 0 {
        Some(Lapic::new(Backend::XApic, base))
    } else if number == 2 {
        Some(Lapic::new(Backend::X2Apic, base))
    } else {
        None
    }
}

} // verus!
