//! Fixed capacities of every kernel table.
//!
//! There is no kernel heap. Every object lives in a table of fixed capacity,
//! and an object is refused before any part of it becomes visible when its
//! table is full.

use vstd::prelude::*;

verus! {

/// Processors the kernel can run on.
pub const MAX_CPUS: usize = 8;

/// Domains the kernel can hold at once.
pub const MAX_DOMAINS: usize = 8;

/// Threads the kernel can hold at once, the idle thread included.
pub const MAX_THREADS: usize = 16;

/// Threads one domain may hold.
pub const MAX_THREADS_PER_DOMAIN: usize = 4;

/// Capability slots in one domain's table.
pub const MAX_CAPS: usize = 64;

/// Scopes the kernel can hold at once.
pub const MAX_SCOPES: usize = 16;

/// Levels of the scope tree, the root included.
pub const MAX_SCOPE_DEPTH: u32 = 8;

/// Grant nodes the kernel can hold at once, tombstones included.
pub const MAX_GRANTS: usize = 128;

/// Levels of the grant tree below a root grant.
pub const MAX_DERIVE_DEPTH: u32 = 8;

/// Memory objects the kernel can hold at once.
pub const MAX_MEMORY_OBJECTS: usize = 24;

/// Pages one memory object may hold.
pub const MAX_OBJECT_PAGES: u64 = 512;

/// Mapping records, which are also the reverse index a seal walks.
pub const MAX_MAPS: usize = 64;

/// Endpoints the kernel can hold at once.
pub const MAX_ENDPOINTS: usize = 12;

/// Messages one endpoint may queue.
pub const MAX_ENDPOINT_QUEUE: u32 = 32;

/// Messages in flight across every endpoint.
pub const MAX_MESSAGES: usize = 32;

/// Capabilities one message may carry.
pub const MAX_MESSAGE_CAPS: usize = 4;

/// Bytes of the largest inline payload.
pub const MAX_INLINE_PAYLOAD: usize = 256;

/// Invocations the kernel can hold at once.
pub const MAX_INVOCATIONS: usize = 32;

/// Signals the kernel can hold at once.
pub const MAX_SIGNALS: usize = 12;

/// Timers the kernel can hold at once.
pub const MAX_TIMERS: usize = 12;

/// Control logs the kernel can hold at once.
pub const MAX_CONTROL_LOGS: usize = 2;

/// Receipts one control log retains.
pub const CONTROL_LOG_CAPACITY: usize = 64;

/// Cells of a control log reserved for closing authority, which ordinary
/// traffic can never occupy. A full log must never stop a revocation.
pub const CONTROL_LOG_RESERVED: usize = 16;

/// Scheduling window over which a scope's CPU budget is measured.
pub const CPU_WINDOW_NS: u64 = 100_000_000;

/// Devices the kernel can hold at once.
pub const MAX_DEVICES: usize = 4;

/// Register regions one device may expose.
pub const MAX_DEVICE_REGIONS: usize = 6;

/// Device register mappings the kernel can hold at once.
pub const MAX_DEVICE_MAPS: usize = 12;

/// DMA grants the kernel can hold at once.
pub const MAX_DMA_GRANTS: usize = 16;

/// Interrupt bindings the kernel can hold at once.
pub const MAX_IRQ_BINDINGS: usize = 8;

/// Receipts one read returns at most, and the batch a reader waits for.
pub const LOG_BATCH: usize = 4;

} // verus!
