# Thalyx

A capability microkernel for x86_64 and its UEFI loader, with the parts that
decide anything written in Verus and proved against their contracts.

- `src/` is the verified core. It touches no register and no raw memory.
  - `abi`, `api`: the interface, from the registers of an entry to the answer in
    its descriptor. `api::dispatch` checks, authorises and dispatches; the other
    modules of `api` are the operations.
  - `state`, `tables`, `machine`, `spaces`: the machine as one value, its
    well-formedness, and the only functions that change its tables.
  - `obj`, `scope`, `ipc`, `events`, `memobj`, `ctrl`, `device`, `domain`,
    `thread`: what the tables hold.
  - `mm`, `page_table`, `arch::x86_64::paging`: frames and page tables, with the
    walk of the processor as their meaning.
  - `kstack`: kernel stacks, and what a slot that is taken or free maps.
  - `backing`: what stands behind the pages of domains, an invariant of the
    machine; `access`: the ranges of a domain that an operation reads or writes.
  - `elf`, `acpi`, `loader`, `protocol`: formats that come from outside, and what
    the loader decides.
  - `boot`, `k2boot`: what a boot builds before the first domain runs.
- `tests/` runs the core on concrete values.
- `app/` is the kernel and the loader on their machine: instructions, ports,
  firmware calls, and copies of bytes.

Operations that wait, copy a domain's bytes or touch a device run in steps: the
core decides, `app/` performs, and the core decides what follows.
