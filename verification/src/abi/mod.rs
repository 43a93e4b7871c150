//! The binary interface between domains and the kernel: handles, operation
//! codes and the version word.

use vstd::prelude::*;

pub mod boot_slot;
pub mod cap_lineage;
pub mod cap_op;
pub mod flag;
pub mod message_kind;
pub mod object_type;
pub mod op;
pub mod operations;
pub mod outcome;
pub mod receipt_kind;
pub mod request;
pub mod right;
pub mod status;
pub mod wire;

verus! {

/// Bit set on every diagnostic entry so that such a call can never be mistaken
/// for an assigned one.
pub const SCAFFOLD_MARKER: u64 = 0x8000_0000_0000_0000;

/// Emits one diagnostic note.
pub const SCAFFOLD_DIAG_NOTE: u64 = 0x8000_0000_0000_0001;

/// Terminates the calling domain voluntarily.
pub const SCAFFOLD_DIAG_EXIT: u64 = 0x8000_0000_0000_0002;

/// Monotonic progress report.
pub const NOTE_PROGRESS: u64 = 1;

/// Result of a self-check.
pub const NOTE_SELF_CHECK: u64 = 2;

/// The program is about to execute a deliberate illegal access.
pub const NOTE_PROBE_INTENT: u64 = 3;

/// The handle of `slot` under `generation`: generation above, slot below.
pub open spec fn handle_of(slot: u32, generation: u32) -> u64 {
    (generation * 0x1_0000_0000 + slot) as u64
}

/// The slot half of a handle.
pub open spec fn slot_of(value: u64) -> u32 {
    (value % 0x1_0000_0000) as u32
}

/// The generation half of a handle.
pub open spec fn generation_of(value: u64) -> u32 {
    (value / 0x1_0000_0000) as u32
}

/// Packs a version pair into one word, major above minor.
pub fn pack_version(major: u16, minor: u16) -> (word: u64)
    ensures
        word == major * 0x1_0000 + minor,
{
    (major as u64) * 0x1_0000 + (minor as u64)
}

/// Builds a handle from a table slot and a generation.
///
/// Zero is never a valid handle: generations start at one, so no live entry can
/// encode to zero even in slot zero.
pub fn handle(slot: u32, generation: u32) -> (value: u64)
    ensures
        value == handle_of(slot, generation),
        value == 0 <==> slot == 0 && generation == 0,
{
    (generation as u64) * 0x1_0000_0000 + (slot as u64)
}

/// Table slot a handle names.
pub fn handle_slot(value: u64) -> (slot: u32)
    ensures
        slot == slot_of(value),
{
    (value % 0x1_0000_0000) as u32
}

/// Generation a handle carries.
pub fn handle_generation(value: u64) -> (generation: u32)
    ensures
        generation == generation_of(value),
{
    (value / 0x1_0000_0000) as u32
}

/// Handle of a capability installed in a slot that had never been used before,
/// whose generation is therefore one.
pub fn boot_handle(slot: u32) -> (value: u64)
    ensures
        value == handle_of(slot, 1),
        value != 0,
{
    handle(slot, 1)
}

/// Object type a capability names, taken from an operation code.
pub fn op_type(operation: u32) -> (kind: u32)
    ensures
        kind == operation / 0x1_0000,
{
    operation / 0x1_0000
}

/// Taking a handle apart gives back the slot and the generation it was built
/// from.
pub proof fn handle_round_trip(slot: u32, generation: u32)
    ensures
        slot_of(handle_of(slot, generation)) == slot,
        generation_of(handle_of(slot, generation)) == generation,
{
}

/// Building a handle from the two halves of a handle gives that handle back.
pub proof fn handle_is_its_halves(value: u64)
    ensures
        handle_of(slot_of(value), generation_of(value)) == value,
{
}

/// Two different pairs of slot and generation never share a handle, so a handle
/// kept from an earlier use of a slot cannot name its next use.
pub proof fn handles_are_distinct(slot: u32, generation: u32, other: u32, later: u32)
    requires
        handle_of(slot, generation) == handle_of(other, later),
    ensures
        slot == other,
        generation == later,
{
    handle_round_trip(slot, generation);
    handle_round_trip(other, later);
}

} // verus!
