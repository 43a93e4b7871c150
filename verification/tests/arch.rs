//! The processor: descriptor tables, feature gates, controller encodings.

use thalyx::arch::x86_64::ap;
use thalyx::arch::x86_64::context::{prepare_user_thread, STOPPED_CONTEXT_LEN};
use thalyx::arch::x86_64::cpu::{apic_id_from_cpuid, Cpuid, Features, Leaves, CR4_SMAP, CR4_SMEP};
use thalyx::arch::x86_64::fpu::{control, FpuState};
use thalyx::arch::x86_64::gdt::{
    descriptors, Tss, KERNEL_CODE_DESC, TSS_LEN, USER_CODE, USER_CODE_DESC, USER_DATA,
};
use thalyx::arch::x86_64::idt::{gates, Entry};
use thalyx::arch::x86_64::lapic::{
    calibrate, calibrate_against_tsc, current, enable_local, install, timer_count, window_ticks,
    Backend, Calibration, Command, Lapic, Write,
};
use thalyx::arch::x86_64::pic::remap_and_mask;
use thalyx::arch::x86_64::pit::{counter, elapsed_ticks};
use thalyx::arch::x86_64::serial::{Uart, COM1};
use thalyx::arch::x86_64::syscall::{star_value, SYSCALL_FLAG_MASK};
use thalyx::arch::x86_64::trap::{stub_address, TrapFrame};
use thalyx::diag::{line_bytes, write_ns, Plane};
use thalyx::harness::{exit_status, STATUS_COMPLETE, STATUS_PANIC};

fn leaf(eax: u32, ebx: u32, ecx: u32, edx: u32) -> Cpuid {
    Cpuid { eax, ebx, ecx, edx }
}

fn leaves() -> Leaves {
    Leaves {
        basic: leaf(0x16, 0, 0, 0),
        one: leaf(0, 0x0500_0800, 1 << 21, 0x0701_2270),
        seven: leaf(0, (1 << 7) | (1 << 20), 0, 0),
        topology: leaf(0, 0, 0, 0x1_0003),
        extended: leaf(0x8000_0008, 0, 0, 0),
        extended_one: leaf(0, 0, 0, (1 << 29) | (1 << 26) | (1 << 20) | (1 << 11)),
        extended_seven: leaf(0, 0, 0, 1 << 8),
    }
}

#[test]
fn a_complete_processor_lacks_nothing() {
    let features = Features::detect(&leaves());
    assert_eq!(features.missing_mandatory(), "");
    assert!(features.smep && features.smap && features.invariant_tsc && features.x2apic);
    assert_eq!(features.protected_cr4(0x20), 0x20 | CR4_SMEP | CR4_SMAP);
}

#[test]
fn leaves_beyond_the_highest_are_not_read() {
    let mut l = leaves();
    l.extended.eax = 0x8000_0000;
    l.basic.eax = 6;
    let features = Features::detect(&l);
    assert_eq!(features.missing_mandatory(), "long_mode");
    assert!(!features.smep && !features.smap && !features.invariant_tsc);
    assert_eq!(features.protected_cr4(0x20), 0x20);
}

#[test]
fn the_first_missing_feature_is_named() {
    let mut l = leaves();
    l.extended_one.edx &= !(1 << 20);
    assert_eq!(Features::detect(&l).missing_mandatory(), "nx");
    l.one.edx &= !(1 << 24);
    assert_eq!(Features::detect(&l).missing_mandatory(), "fxsr");
    l.one.edx &= !(1 << 5);
    assert_eq!(Features::detect(&l).missing_mandatory(), "msr");
}

#[test]
fn identifiers_of_both_interfaces() {
    assert_eq!(apic_id_from_cpuid(true, &leaves()), 0x1_0003);
    assert_eq!(apic_id_from_cpuid(false, &leaves()), 5);
    let mut old = leaves();
    old.basic.eax = 0x0A;
    assert_eq!(apic_id_from_cpuid(true, &old), 5);
}

#[test]
fn floating_point_is_eager() {
    let (cr0, cr4) = control(0x8000_000D, 0x20);
    assert_eq!(cr0, 0x8000_0023);
    assert_eq!(cr4, 0x620);
    assert!(FpuState::zeroed().bytes.iter().all(|byte| *byte == 0));
}

#[test]
fn descriptor_table_holds_the_segment() {
    let base = 0xFFFF_FFFF_8012_3450u64;
    let entries = descriptors(base);
    assert_eq!(entries[0], 0);
    assert_eq!(entries[1], KERNEL_CODE_DESC);
    assert_eq!(entries[4], USER_CODE_DESC);
    let low = entries[5];
    assert_eq!(low & 0xFFFF, u64::from(TSS_LEN) - 1);
    let found = ((low >> 16) & 0xFF_FFFF) | (((low >> 56) & 0xFF) << 24) | (entries[6] << 32);
    assert_eq!(found, base);
    assert_eq!((low >> 40) & 0xFF, 0x89);
}

#[test]
fn task_state_segment_stacks() {
    let mut tss = Tss::new();
    assert_eq!(tss.iomap_base, 104);
    tss.set_kernel_stack(0x9000);
    tss.set_emergency_stacks(&[1, 2, 3]);
    assert_eq!(tss.rsp, [0x9000, 0, 0]);
    assert_eq!(tss.ist, [1, 2, 3, 0, 0, 0, 0]);
    assert_eq!(tss.ist_stack(2), 3);
}

#[test]
fn gates_name_their_handlers() {
    let stubs = 0xFFFF_FFFF_8000_1000u64;
    let table = gates(stubs);
    assert_eq!(table.len(), 256);
    let gate = table[0x41];
    let handler = u64::from(gate.offset_low)
        + (u64::from(gate.offset_mid) << 16)
        + (u64::from(gate.offset_high) << 32);
    assert_eq!(handler, stub_address(stubs, 0x41));
    assert_eq!(handler, stubs + 0x410);
    assert_eq!(gate.flags, 0x8E);
    assert_eq!(table[8].ist, 1);
    assert_eq!(table[2].ist, 2);
    assert_eq!(table[18].ist, 3);
    assert_eq!(table[14].ist, 0);
    assert_eq!(Entry::empty().flags, 0);
}

#[test]
fn selectors_of_the_system_call() {
    assert_eq!(star_value(), 0x0013_0008_0000_0000);
    assert_eq!(u64::from(USER_DATA), (star_value() >> 48) + 8);
    assert_eq!(u64::from(USER_CODE), (star_value() >> 48) + 16);
    assert_eq!(SYSCALL_FLAG_MASK & 0x200, 0x200);
}

#[test]
fn first_context_of_a_thread() {
    let (sp, context) = prepare_user_thread(0x10_0000, 0x40_1000, 0x7000_0000, 42, 0xAB);
    assert_eq!(sp, 0x10_0000 - STOPPED_CONTEXT_LEN);
    assert_eq!(STOPPED_CONTEXT_LEN, 232);
    assert_eq!(context.resume, 0xAB);
    assert_eq!(context.frame.rip, 0x40_1000);
    assert_eq!(context.frame.rdi, 42);
    assert_eq!(context.frame.rsp, 0x7000_0000 - 8);
    assert_eq!(context.frame.rflags, 0x202);
    assert_eq!(context.frame.rax | context.frame.r15 | context.rbx, 0);
    assert!(context.frame.from_user());
    assert_eq!(context.frame.cpl(), 3);
    let kernel = TrapFrame { cs: 8, ..context.frame };
    assert!(!kernel.from_user());
}

#[test]
fn leaving_the_newer_interface_goes_through_off() {
    assert_eq!(enable_local(0xFEE0_0D00, false), (Some(0xFEE0_0100), 0xFEE0_0900));
    assert_eq!(enable_local(0xFEE0_0900, true), (None, 0xFEE0_0D00));
    assert_eq!(enable_local(0xFEE0_0100, false), (None, 0xFEE0_0900));
}

#[test]
fn controller_commands() {
    let old = Lapic::new(Backend::XApic, 0x1000);
    let new = Lapic::new(Backend::X2Apic, 0);
    assert_eq!(old.backend().name(), "xapic");
    assert_eq!(new.backend().name(), "x2apic");
    assert_eq!(old.send_fixed(3, 0x41), Command::Halves(0x0300_0000, 0x4041));
    assert_eq!(new.send_fixed(0x1_0003, 0x41), Command::Whole(0x0001_0003_0000_4041));
    assert_eq!(
        old.send_init(1),
        (Command::Halves(0x0100_0000, 0x4500), Command::Halves(0x0100_0000, 0x8500))
    );
    assert_eq!(new.send_startup(1, 8), Command::Whole(0x1_0000_4608));
    assert_eq!(old.id(0x0500_0000), 5);
    assert_eq!(new.id(0x0500_0000), 0x0500_0000);
    assert_eq!(Lapic::msr(0x300), 0x830);
    assert_eq!(old.configure(0xFF)[0], Write { register: 0xF0, value: 0x1FF });
    assert_eq!(old.start_periodic(0x40, 9)[1], Write { register: 0x320, value: 0x2_0040 });
    assert_eq!(old.end_of_interrupt(), Write { register: 0xB0, value: 0 });
}

#[test]
fn installed_interface_is_found_again() {
    assert_eq!(current(0, 5), None);
    assert_eq!(current(install(Backend::XApic), 0), None);
    assert_eq!(current(install(Backend::XApic), 9), Some(Lapic::new(Backend::XApic, 9)));
    assert_eq!(current(install(Backend::X2Apic), 0), Some(Lapic::new(Backend::X2Apic, 0)));
}

#[test]
fn measured_frequencies() {
    assert_eq!(
        calibrate(11_931, u32::MAX - 625_000, 30_000_000),
        Calibration { lapic_hz: 62_504_300, tsc_hz: 3_000_206_414, window_ns: 9_999_312 }
    );
    assert_eq!(
        calibrate(0, 0, 5),
        Calibration { lapic_hz: 0, tsc_hz: 0, window_ns: 0 }
    );
    assert_eq!(window_ticks(3_000_000_000, 10_000_000), 30_000_000);
    assert_eq!(calibrate_against_tsc(3_000_000_000, u32::MAX - 100, 3_000), 100_000_000);
    assert_eq!(calibrate_against_tsc(3_000_000_000, 0, 0), 0);
    assert_eq!(timer_count(62_500_000, 100), 625_000);
    assert_eq!(timer_count(99, 100), 1);
    assert_eq!(timer_count(u64::MAX, 1), u32::MAX);
    assert_eq!(counter(0x34, 0x12), 0x1234);
    assert_eq!(elapsed_ticks(0xFFF0), 15);
}

#[test]
fn legacy_devices() {
    let writes = remap_and_mask();
    assert_eq!(writes[2], (0x21, 0x20));
    assert_eq!(writes[3], (0xA1, 0x28));
    assert_eq!(writes[9], (0xA1, 0xFF));
    let uart = Uart::new(COM1);
    assert_eq!(uart.init()[2], (0x3F8, 1));
    assert_eq!(uart.init()[5], (0x3FA, 0xC7));
    assert_eq!(uart.write_str(b"a\nb"), b"a\r\nb".to_vec());
}

#[test]
fn start_block_of_a_processor() {
    assert_eq!(ap::blob_len(0x1000, 0x1220), 0x220);
    assert_eq!(ap::patch_offset(0x1000, 0x1024), 0x24);
    assert_eq!(ap::OFFSET_GDTR_BASE, ap::OFFSET_GDTR + 2);
}

#[test]
fn records_are_counted() {
    let mut plane = Plane::init(12);
    assert_eq!(plane.take(), 12);
    assert_eq!(plane.take(), 13);
    plane.charge(line_bytes(b"x\ny\n"), 500);
    assert_eq!(plane.stats(), (2, 6, 500));
    assert!(plane.trace_enabled());
    plane.set_trace(false);
    assert!(!plane.trace_enabled());
    plane.withhold(1);
    plane.withhold(1);
    plane.withhold(3);
    assert_eq!(plane.total_withheld(), 3);
    assert_eq!(write_ns(3_000, 3_000_000_000), 1_000);
    assert_eq!(write_ns(3_000, 0), 0);
}

#[test]
fn emulator_status() {
    assert_eq!(exit_status(STATUS_COMPLETE), 33);
    assert_eq!(exit_status(STATUS_PANIC), 35);
}
