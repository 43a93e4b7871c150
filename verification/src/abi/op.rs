//! Operation codes: a group in the upper half, an ordinal in the lower.

use vstd::prelude::*;

verus! {

/// Cap: inspect.
pub const CAP_INSPECT: u32 = 0x0001;

/// Cap: derive.
pub const CAP_DERIVE: u32 = 0x0002;

/// Cap: copy.
pub const CAP_COPY: u32 = 0x0003;

/// Cap: close.
pub const CAP_CLOSE: u32 = 0x0004;

/// Cap: fence.
pub const CAP_FENCE: u32 = 0x0005;

/// Cap: drain status.
pub const CAP_DRAIN_STATUS: u32 = 0x0006;

/// Scope: create child.
pub const SCOPE_CREATE_CHILD: u32 = 0x1_0001;

/// Scope: query.
pub const SCOPE_QUERY: u32 = 0x1_0002;

/// Scope: set limits.
pub const SCOPE_SET_LIMITS: u32 = 0x1_0003;

/// Scope: fence.
pub const SCOPE_FENCE: u32 = 0x1_0004;

/// Scope: drain status.
pub const SCOPE_DRAIN_STATUS: u32 = 0x1_0005;

/// Scope: retire.
pub const SCOPE_RETIRE: u32 = 0x1_0006;

/// Scope: create domain.
pub const SCOPE_CREATE_DOMAIN: u32 = 0x1_0007;

/// Scope: create memory.
pub const SCOPE_CREATE_MEMORY: u32 = 0x1_0008;

/// Scope: create endpoint.
pub const SCOPE_CREATE_ENDPOINT: u32 = 0x1_0009;

/// Scope: create signal.
pub const SCOPE_CREATE_SIGNAL: u32 = 0x1_000A;

/// Scope: create timer.
pub const SCOPE_CREATE_TIMER: u32 = 0x1_000B;

/// Domain: map.
pub const DOMAIN_MAP: u32 = 0x2_0001;

/// Domain: unmap.
pub const DOMAIN_UNMAP: u32 = 0x2_0002;

/// Domain: install cap.
pub const DOMAIN_INSTALL_CAP: u32 = 0x2_0003;

/// Domain: add thread.
pub const DOMAIN_ADD_THREAD: u32 = 0x2_0004;

/// Domain: set fault channel.
pub const DOMAIN_SET_FAULT_CHANNEL: u32 = 0x2_0005;

/// Domain: activate.
pub const DOMAIN_ACTIVATE: u32 = 0x2_0006;

/// Domain: terminate.
pub const DOMAIN_TERMINATE: u32 = 0x2_0007;

/// Domain: query.
pub const DOMAIN_QUERY: u32 = 0x2_0008;

/// Memory: query.
pub const MEMORY_QUERY: u32 = 0x3_0001;

/// Memory: seal.
pub const MEMORY_SEAL: u32 = 0x3_0002;

/// Memory: copy.
pub const MEMORY_COPY: u32 = 0x3_0003;

/// Memory: write.
pub const MEMORY_WRITE: u32 = 0x3_0004;

/// Memory: read.
pub const MEMORY_READ: u32 = 0x3_0005;

/// Endpoint: bind facet.
pub const ENDPOINT_BIND_FACET: u32 = 0x4_0001;

/// Endpoint: send.
pub const ENDPOINT_SEND: u32 = 0x4_0002;

/// Endpoint: call.
pub const ENDPOINT_CALL: u32 = 0x4_0003;

/// Endpoint: receive.
pub const ENDPOINT_RECEIVE: u32 = 0x4_0004;

/// Endpoint: query.
pub const ENDPOINT_QUERY: u32 = 0x4_0005;

/// Invocation: reply.
pub const INVOCATION_REPLY: u32 = 0x5_0001;

/// Invocation: begin effect.
pub const INVOCATION_BEGIN_EFFECT: u32 = 0x5_0002;

/// Invocation: resolve.
pub const INVOCATION_RESOLVE: u32 = 0x5_0003;

/// Invocation: query.
pub const INVOCATION_QUERY: u32 = 0x5_0004;

/// Invocation: bind worker.
pub const INVOCATION_BIND_WORKER: u32 = 0x5_0005;

/// Invocation: unbind worker.
pub const INVOCATION_UNBIND_WORKER: u32 = 0x5_0006;

/// Signal: raise.
pub const SIGNAL_RAISE: u32 = 0x6_0001;

/// Signal: wait.
pub const SIGNAL_WAIT: u32 = 0x6_0002;

/// Signal: query.
pub const SIGNAL_QUERY: u32 = 0x6_0003;

/// Timer: arm.
pub const TIMER_ARM: u32 = 0x7_0001;

/// Timer: cancel.
pub const TIMER_CANCEL: u32 = 0x7_0002;

/// Timer: query.
pub const TIMER_QUERY: u32 = 0x7_0003;

/// Log: read.
pub const LOG_READ: u32 = 0x8_0001;

/// Log: append.
pub const LOG_APPEND: u32 = 0x8_0002;

/// Log: ack.
pub const LOG_ACK: u32 = 0x8_0003;

/// Log: query.
pub const LOG_QUERY: u32 = 0x8_0004;

/// Device: query.
pub const DEVICE_QUERY: u32 = 0x9_0001;

/// Device: map region.
pub const DEVICE_MAP_REGION: u32 = 0x9_0002;

/// Device: unmap region.
pub const DEVICE_UNMAP_REGION: u32 = 0x9_0003;

/// Device: bind irq.
pub const DEVICE_BIND_IRQ: u32 = 0x9_0004;

/// Device: set master.
pub const DEVICE_SET_MASTER: u32 = 0x9_0005;

/// Device: dma map.
pub const DEVICE_DMA_MAP: u32 = 0x9_0006;

/// Device: dma unmap.
pub const DEVICE_DMA_UNMAP: u32 = 0x9_0007;

/// Device: reset.
pub const DEVICE_RESET: u32 = 0x9_0008;

} // verus!
