//! What stands behind the pages of domains.
//!
//! A page of a domain names a frame that the domain holds, a frame of a memory
//! object that is mapped there, or a frame of a register window that is mapped
//! there. Nothing else is ever within its reach.

use vstd::prelude::*;

use crate::device::{self, Device};
use crate::memobj::{MapRecord, MemoryObject, State as MemState};
use crate::mm::{FrameUse, Owner};
use crate::page_table::{same_page, target};
use crate::state::{Domain, Machine, MachineModel};

verus! {

/// The parts of the machine that the pages of domains stand on.
pub ghost struct Backing {
    /// What each address of a space translates to.
    pub pages: Map<(int, u64), (nat, u64)>,
    /// What each frame is used for.
    pub uses: Seq<FrameUse>,
    /// The domains.
    pub domains: Seq<Domain>,
    /// The memory objects.
    pub memories: Seq<MemoryObject>,
    /// Their mappings.
    pub maps: Seq<MapRecord>,
    /// The devices.
    pub devices: Seq<Device>,
    /// The mappings of their windows.
    pub device_maps: Seq<device::MapRecord>,
}

/// How many of the mappings are of memory object `o`.
pub open spec fn count_maps(maps: Seq<MapRecord>, o: int) -> nat
    decreases maps.len(),
{
    if maps.len() == 0 {
        0
    } else {
        count_maps(maps.drop_last(), o) + if maps.last().used && maps.last().memory == o {
            1nat
        } else {
            0nat
        }
    }
}

/// The address lies in the range of pages.
pub open spec fn covers(vaddr: u64, pages: u32, v: u64) -> bool {
    vaddr <= v < vaddr + pages * 0x1000
}

/// No mapping is of memory object `o`.
pub open spec fn is_unmapped(maps: Seq<MapRecord>, o: int) -> bool {
    forall|k: int| 0 <= k < maps.len() && (#[trigger] maps[k]).used ==> maps[k].memory != o
}

/// No mapping is of a window of device `i`.
pub open spec fn is_unwindowed(maps: Seq<device::MapRecord>, i: int) -> bool {
    forall|k: int| 0 <= k < maps.len() && (#[trigger] maps[k]).used ==> maps[k].device != i
}

/// Two records of a memory object are of the same frames of the same object.
pub open spec fn same_memory(a: MemoryObject, b: MemoryObject) -> bool {
    &&& a.base == b.base
    &&& a.pages == b.pages
    &&& a.generation == b.generation
    &&& a.state == MemState::Empty <==> b.state == MemState::Empty
}

/// Two records of a device have the same windows.
pub open spec fn same_windows(a: Device, b: Device) -> bool {
    &&& a.generation == b.generation
    &&& a.region_count == b.region_count
    &&& forall|r: int|
        0 <= r < a.regions@.len() ==> (#[trigger] a.regions@[r]).phys == b.regions@[r].phys
            && a.regions@[r].length == b.regions@[r].length
    &&& a.regions@.len() == b.regions@.len()
}

impl Backing {
    /// The topmost table of a domain's space.
    pub open spec fn root(self, d: int) -> int {
        (self.domains[d].space->0).number as int
    }

    /// An address translates in a domain's space.
    pub open spec fn has_page(self, d: int, v: u64) -> bool {
        &&& 0 <= d < self.domains.len()
        &&& self.domains[d].space is Some
        &&& self.pages.contains_key((self.root(d), v))
    }

    /// A mapping of a memory object puts frame `f` behind an address.
    pub open spec fn map_backs(self, k: int, d: int, v: u64, f: int) -> bool {
        let r = self.maps[k];
        &&& 0 <= k < self.maps.len()
        &&& r.used
        &&& r.domain == d
        &&& r.domain_generation == self.domains[d].generation
        &&& covers(r.vaddr, r.pages, v)
        &&& f == self.memories[r.memory as int].base.number + r.offset_pages + (v - r.vaddr)
            / 0x1000
    }

    /// A mapping of a register window puts frame `f` behind an address.
    pub open spec fn window_backs(self, k: int, d: int, v: u64, f: int) -> bool {
        let r = self.device_maps[k];
        &&& 0 <= k < self.device_maps.len()
        &&& r.used
        &&& r.domain == d
        &&& r.domain_generation == self.domains[d].generation
        &&& covers(r.vaddr, r.pages, v)
        &&& f == self.devices[r.device as int].regions@[r.region as int].phys / 0x1000 + (v
            - r.vaddr) / 0x1000
    }

    /// The domain holds the frame.
    pub open spec fn holds(self, d: int, f: int) -> bool {
        &&& 0 <= f < self.uses.len()
        &&& self.uses[f] == FrameUse::Held(Owner::Domain(d as u16))
    }

    /// Frame `f` may stand behind an address of a domain: the domain holds it, or
    /// a memory object or a register window is mapped there that has it.
    pub open spec fn backs(self, d: int, v: u64, f: int) -> bool {
        ||| self.holds(d, f)
        ||| exists|k: int| #[trigger] self.map_backs(k, d, v, f)
        ||| exists|k: int| #[trigger] self.window_backs(k, d, v, f)
    }

    /// A run of frames that starts with `base` at `vaddr` may stand behind an
    /// address.
    pub open spec fn run_backs(self, d: int, vaddr: u64, base: int, v: u64) -> bool {
        self.backs(d, v, base + (v - vaddr) / 0x1000)
    }

    /// What an address of a domain translates to is an ordinary page whose frame
    /// may stand behind it.
    pub open spec fn page_stands(self, d: int, v: u64) -> bool {
        let (level, entry) = self.pages[(self.root(d), v)];
        level == 0 && self.backs(d, v, target(entry) as int / 0x1000)
    }

    /// A mapping is of pages that its memory object has.
    pub open spec fn map_is_live(self, r: MapRecord) -> bool {
        let object = self.memories[r.memory as int];
        &&& r.memory < self.memories.len()
        &&& object.state != MemState::Empty
        &&& object.generation == r.memory_generation
        &&& r.offset_pages + r.pages <= object.pages
    }

    /// A register mapping is of a window that its device has.
    pub open spec fn window_is_live(self, r: device::MapRecord) -> bool {
        let device = self.devices[r.device as int];
        &&& r.device < self.devices.len()
        &&& device.generation == r.device_generation
        &&& r.region < device.region_count
        &&& r.region < device.regions@.len()
        &&& r.pages == device.regions@[r.region as int].length / 0x1000
    }

    /// Every page of a domain stands on something, every mapping is of something
    /// that is there, and a memory object counts its mappings.
    #[verifier::opaque]
    pub open spec fn stands(self) -> bool {
        &&& forall|d: int, v: u64| #[trigger] self.has_page(d, v) ==> self.page_stands(d, v)
        &&& forall|k: int|
            0 <= k < self.maps.len() && (#[trigger] self.maps[k]).used ==> self.map_is_live(
                self.maps[k],
            )
        &&& forall|k: int|
            0 <= k < self.device_maps.len() && (#[trigger] self.device_maps[k]).used
                ==> self.window_is_live(self.device_maps[k])
        &&& forall|o: int|
            0 <= o < self.memories.len() ==> (#[trigger] self.memories[o]).map_count >= count_maps(
                self.maps,
                o,
            )
    }

    /// Both have the same objects, devices and mappings.
    pub open spec fn same_records(self, before: Backing) -> bool {
        &&& self.maps == before.maps
        &&& self.memories == before.memories
        &&& self.device_maps == before.device_maps
        &&& self.devices == before.devices
    }

    /// A domain with a space is the one it was, and holds on to what it held.
    pub open spec fn keeps_held(self, before: Backing) -> bool {
        &&& self.uses.len() == before.uses.len()
        &&& forall|d: int|
            0 <= d < self.domains.len() && (#[trigger] self.domains[d]).space is Some
                ==> self.domains[d].generation == before.domains[d].generation
        &&& forall|d: int, f: int|
            0 <= d < self.domains.len() && self.domains[d].space is Some && #[trigger] before.holds(
                d,
                f,
            ) ==> self.holds(d, f)
    }

    /// A frame that may stand behind an address still may where records and held
    /// frames are kept.
    pub proof fn backing_goes_on(self, before: Backing, d: int, v: u64, f: int)
        requires
            self.same_records(before),
            self.keeps_held(before),
            0 <= d < self.domains.len(),
            self.domains[d].space is Some,
            before.backs(d, v, f),
        ensures
            self.backs(d, v, f),
    {
        if before.holds(d, f) {
        } else if exists|k: int| #[trigger] before.map_backs(k, d, v, f) {
            let k = choose|k: int| #[trigger] before.map_backs(k, d, v, f);
            assert(self.map_backs(k, d, v, f));
        } else {
            let k = choose|k: int| #[trigger] before.window_backs(k, d, v, f);
            assert(self.window_backs(k, d, v, f));
        }
    }

    /// A step that makes no page, keeps records and leaves domains what they hold
    /// keeps everything standing.
    pub proof fn stands_on(self, before: Backing)
        requires
            before.stands(),
            self.same_records(before),
            self.keeps_held(before),
            forall|d: int, v: u64| #[trigger]
                self.has_page(d, v) ==> before.has_page(d, v) && self.pages[(self.root(d), v)]
                    == before.pages[(before.root(d), v)],
        ensures
            self.stands(),
    {
        reveal(Backing::stands);
        assert forall|d: int, v: u64| #[trigger] self.has_page(d, v) implies self.page_stands(
            d,
            v,
        ) by {
            assert(before.has_page(d, v));
            assert(before.page_stands(d, v));
            self.backing_goes_on(before, d, v, target(self.pages[(self.root(d), v)].1) as int
                / 0x1000);
        }
    }

    /// A step that makes one page over a frame that may stand behind it keeps
    /// everything standing.
    pub proof fn stands_with_page(self, before: Backing, d: int, vaddr: u64, entry: u64)
        requires
            before.stands(),
            self.same_records(before),
            self.keeps_held(before),
            0 <= d < self.domains.len(),
            self.domains[d].space is Some,
            forall|w: u64|
                same_page(w, vaddr, 0) && w < 0x8000_0000_0000 ==> #[trigger] before.backs(
                    d,
                    w,
                    target(entry) as int / 0x1000,
                ),
            forall|e: int, v: u64| #[trigger]
                self.has_page(e, v) ==> {
                    ||| before.has_page(e, v) && self.pages[(self.root(e), v)]
                        == before.pages[(before.root(e), v)]
                    ||| e == d && same_page(v, vaddr, 0) && v < 0x8000_0000_0000
                        && self.pages[(self.root(e), v)] == (0nat, entry)
                },
        ensures
            self.stands(),
    {
        reveal(Backing::stands);
        assert forall|e: int, v: u64| #[trigger] self.has_page(e, v) implies self.page_stands(
            e,
            v,
        ) by {
            let f = target(self.pages[(self.root(e), v)].1) as int / 0x1000;
            if before.has_page(e, v) && self.pages[(self.root(e), v)] == before.pages[(
                before.root(e),
                v,
            )] {
                assert(before.page_stands(e, v));
            } else {
                assert(before.backs(d, v, target(entry) as int / 0x1000));
            }
            self.backing_goes_on(before, e, v, f);
        }
    }

    /// No page of the domain's space lies in a range.
    pub open spec fn range_is_bare(self, d: int, vaddr: u64, pages: u32) -> bool {
        forall|v: u64| covers(vaddr, pages, v) ==> !(#[trigger] self.has_page(d, v))
    }

    /// A mapping of a memory object may be put in a free place.
    pub open spec fn takes_map(self, k: int, r: MapRecord) -> bool {
        &&& 0 <= k < self.maps.len()
        &&& !self.maps[k].used
        &&& r.used
        &&& self.map_is_live(r)
        &&& self.memories[r.memory as int].map_count > count_maps(self.maps, r.memory as int)
    }

    /// A mapping may be taken out once its pages are gone.
    pub open spec fn loses_map(self, k: int) -> bool {
        &&& 0 <= k < self.maps.len()
        &&& self.maps[k].used && self.domains[self.maps[k].domain as int].generation
            == self.maps[k].domain_generation ==> self.range_is_bare(
            self.maps[k].domain as int,
            self.maps[k].vaddr,
            self.maps[k].pages,
        )
    }

    /// The same with another mapping in place `k`.
    pub open spec fn with_map(self, k: int, r: MapRecord) -> Backing {
        Backing { maps: self.maps.update(k, r), ..self }
    }

    /// The same with another register mapping in place `k`.
    pub open spec fn with_window(self, k: int, r: device::MapRecord) -> Backing {
        Backing { device_maps: self.device_maps.update(k, r), ..self }
    }

    /// A memory object counts at least its mappings, of which there are no more
    /// than places.
    pub proof fn mappings_are_counted(self, o: int)
        requires
            self.stands(),
            0 <= o < self.memories.len(),
        ensures
            count_maps(self.maps, o) <= self.memories[o].map_count,
            count_maps(self.maps, o) <= self.maps.len(),
            forall|k: int|
                0 <= k < self.maps.len() && (#[trigger] self.maps[k]).used && self.maps[k].memory == o
                    ==> count_maps(self.maps, o) >= 1 && self.map_is_live(self.maps[k]),
    {
        reveal(Backing::stands);
        count_is_bounded(self.maps, o);
        assert(self.memories[o].map_count >= count_maps(self.maps, o));
        assert forall|k: int|
            0 <= k < self.maps.len() && (#[trigger] self.maps[k]).used && self.maps[k].memory
                == o implies count_maps(self.maps, o) >= 1 && self.map_is_live(self.maps[k]) by {
            mapped_counts(self.maps, o, k);
        }
    }

    /// A new mapping of an object that counts it keeps everything standing, and
    /// so does taking a bare one out.
    pub proof fn stands_with_map(self, before: Backing, k: int, r: MapRecord)
        requires
            before.stands(),
            before.takes_map(k, r) || !r.used && before.loses_map(k),
            self == before.with_map(k, r),
        ensures
            self.stands(),
    {
        reveal(Backing::stands);
        assert forall|d: int, v: u64| #[trigger] self.has_page(d, v) implies self.page_stands(
            d,
            v,
        ) by {
            assert(before.has_page(d, v));
            assert(before.page_stands(d, v));
            let f = target(self.pages[(self.root(d), v)].1) as int / 0x1000;
            if before.holds(d, f) {
                assert(self.holds(d, f));
            } else if exists|j: int| #[trigger] before.map_backs(j, d, v, f) {
                let j = choose|j: int| #[trigger] before.map_backs(j, d, v, f);
                assert(j != k);
                assert(self.map_backs(j, d, v, f));
            } else {
                let j = choose|j: int| #[trigger] before.window_backs(j, d, v, f);
                assert(self.window_backs(j, d, v, f));
            }
        }
        assert forall|j: int| 0 <= j < self.maps.len() && (#[trigger] self.maps[j]).used implies
            self.map_is_live(self.maps[j]) by {
            if j != k {
                assert(before.maps[j].used);
            }
        }
        assert forall|o: int| 0 <= o < self.memories.len() implies (
        #[trigger] self.memories[o]).map_count >= count_maps(self.maps, o) by {
            count_changes(before.maps, k, r, o);
        }
    }

    /// A register mapping may be put in a free place.
    pub open spec fn takes_window(self, k: int, r: device::MapRecord) -> bool {
        &&& 0 <= k < self.device_maps.len()
        &&& !self.device_maps[k].used
        &&& r.used
        &&& self.window_is_live(r)
    }

    /// A register mapping may be taken out once its pages are gone.
    pub open spec fn loses_window(self, k: int) -> bool {
        &&& 0 <= k < self.device_maps.len()
        &&& self.device_maps[k].used && self.domains[self.device_maps[k].domain as int].generation
            == self.device_maps[k].domain_generation ==> self.range_is_bare(
            self.device_maps[k].domain as int,
            self.device_maps[k].vaddr,
            self.device_maps[k].pages,
        )
    }

    /// A new register mapping keeps everything standing, and so does taking a bare
    /// one out.
    pub proof fn stands_with_window(self, before: Backing, k: int, r: device::MapRecord)
        requires
            before.stands(),
            before.takes_window(k, r) || !r.used && before.loses_window(k),
            self == before.with_window(k, r),
        ensures
            self.stands(),
    {
        reveal(Backing::stands);
        assert forall|d: int, v: u64| #[trigger] self.has_page(d, v) implies self.page_stands(
            d,
            v,
        ) by {
            assert(before.has_page(d, v));
            assert(before.page_stands(d, v));
            let f = target(self.pages[(self.root(d), v)].1) as int / 0x1000;
            if before.holds(d, f) {
                assert(self.holds(d, f));
            } else if exists|j: int| #[trigger] before.map_backs(j, d, v, f) {
                let j = choose|j: int| #[trigger] before.map_backs(j, d, v, f);
                assert(self.map_backs(j, d, v, f));
            } else {
                let j = choose|j: int| #[trigger] before.window_backs(j, d, v, f);
                assert(j != k);
                assert(self.window_backs(j, d, v, f));
            }
        }
        assert forall|j: int|
            0 <= j < self.device_maps.len() && (#[trigger] self.device_maps[j]).used implies
            self.window_is_live(self.device_maps[j]) by {
            if j != k {
                assert(before.device_maps[j].used);
            }
        }
    }

    /// A memory object may be given another record: one of the same frames that
    /// counts its mappings, or any while nothing maps it.
    pub open spec fn takes_memory(self, o: int, v: MemoryObject) -> bool {
        ||| same_memory(v, self.memories[o]) && v.map_count >= self.memories[o].map_count
        ||| same_memory(v, self.memories[o]) && v.map_count >= count_maps(self.maps, o)
        ||| is_unmapped(self.maps, o)
    }

    /// Such a record keeps everything standing.
    pub proof fn stands_with_memory(self, before: Backing, o: int, v: MemoryObject)
        requires
            before.stands(),
            0 <= o < before.memories.len(),
            before.takes_memory(o, v),
            self == (Backing { memories: before.memories.update(o, v), ..before }),
        ensures
            self.stands(),
    {
        reveal(Backing::stands);
        if is_unmapped(before.maps, o) {
            unmapped_counts_none(before.maps, o);
        }
        assert(before.memories[o].map_count >= count_maps(before.maps, o));
        assert forall|d: int, w: u64| #[trigger] self.has_page(d, w) implies self.page_stands(
            d,
            w,
        ) by {
            assert(before.has_page(d, w));
            assert(before.page_stands(d, w));
            let f = target(self.pages[(self.root(d), w)].1) as int / 0x1000;
            if before.holds(d, f) {
                assert(self.holds(d, f));
            } else if exists|j: int| #[trigger] before.map_backs(j, d, w, f) {
                let j = choose|j: int| #[trigger] before.map_backs(j, d, w, f);
                assert(self.maps[j].used);
                assert(self.map_backs(j, d, w, f));
            } else {
                let j = choose|j: int| #[trigger] before.window_backs(j, d, w, f);
                assert(self.window_backs(j, d, w, f));
            }
        }
        assert forall|o2: int| 0 <= o2 < self.memories.len() implies (
        #[trigger] self.memories[o2]).map_count >= count_maps(self.maps, o2) by {
            if o2 != o {
                assert(before.memories[o2].map_count >= count_maps(before.maps, o2));
            }
        }
        assert forall|k: int| 0 <= k < self.maps.len() && (#[trigger] self.maps[k]).used implies
            self.map_is_live(self.maps[k]) by {
            assert(before.map_is_live(before.maps[k]));
        }
    }

    /// Another record of a device with the same windows, or of one none of whose
    /// windows is mapped, keeps everything standing.
    pub proof fn stands_with_device(self, before: Backing, i: int, v: Device)
        requires
            before.stands(),
            0 <= i < before.devices.len(),
            same_windows(before.devices[i], v) || is_unwindowed(before.device_maps, i),
            self == (Backing { devices: before.devices.update(i, v), ..before }),
        ensures
            self.stands(),
    {
        reveal(Backing::stands);
        assert forall|k: int|
            0 <= k < self.device_maps.len() && (#[trigger] self.device_maps[k]).used implies
            self.window_is_live(self.device_maps[k]) by {
            assert(before.window_is_live(before.device_maps[k]));
            assert(before.devices[i].regions@[self.device_maps[k].region as int].length
                == before.devices[i].regions@[self.device_maps[k].region as int].length);
        }
        assert forall|d: int, w: u64| #[trigger] self.has_page(d, w) implies self.page_stands(
            d,
            w,
        ) by {
            assert(before.has_page(d, w));
            assert(before.page_stands(d, w));
            let f = target(self.pages[(self.root(d), w)].1) as int / 0x1000;
            if before.holds(d, f) {
                assert(self.holds(d, f));
            } else if exists|j: int| #[trigger] before.map_backs(j, d, w, f) {
                let j = choose|j: int| #[trigger] before.map_backs(j, d, w, f);
                assert(self.map_backs(j, d, w, f));
            } else {
                let j = choose|j: int| #[trigger] before.window_backs(j, d, w, f);
                assert(before.window_is_live(before.device_maps[j]));
                let r = self.device_maps[j];
                assert(before.devices[r.device as int].regions@[r.region as int].phys
                    == self.devices[r.device as int].regions@[r.region as int].phys);
                assert(self.window_backs(j, d, w, f));
            }
        }
    }

    /// An object that is not there, or counts no mapping, is not mapped.
    pub proof fn uncounted_is_unmapped(self, o: int)
        requires
            self.stands(),
            0 <= o < self.memories.len(),
            self.memories[o].state == MemState::Empty || self.memories[o].map_count == 0,
        ensures
            is_unmapped(self.maps, o),
    {
        reveal(Backing::stands);
        assert forall|k: int| 0 <= k < self.maps.len() && (#[trigger] self.maps[k]).used implies
            self.maps[k].memory != o by {
            if self.maps[k].memory == o {
                mapped_counts(self.maps, o, k);
                assert(self.map_is_live(self.maps[k]));
                assert(self.memories[o].map_count >= count_maps(self.maps, o));
            }
        }
    }

    /// No window of a device that has none is mapped.
    pub proof fn absent_is_unwindowed(self, i: int)
        requires
            self.stands(),
            0 <= i < self.devices.len(),
            self.devices[i].region_count == 0,
        ensures
            is_unwindowed(self.device_maps, i),
    {
        reveal(Backing::stands);
    }
}

/// Changing one place changes the count by what the place counted for.
pub proof fn count_changes(maps: Seq<MapRecord>, k: int, r: MapRecord, o: int)
    requires
        0 <= k < maps.len(),
    ensures
        count_maps(maps.update(k, r), o) == count_maps(maps, o) + (if r.used && r.memory == o {
            1int
        } else {
            0int
        }) - (if maps[k].used && maps[k].memory == o {
            1int
        } else {
            0int
        }),
    decreases maps.len(),
{
    let after = maps.update(k, r);
    if k == maps.len() - 1 {
        assert(after.drop_last() =~= maps.drop_last());
    } else {
        count_changes(maps.drop_last(), k, r, o);
        assert(after.drop_last() =~= maps.drop_last().update(k, r));
    }
}

proof fn count_is_bounded(maps: Seq<MapRecord>, o: int)
    ensures
        count_maps(maps, o) <= maps.len(),
    decreases maps.len(),
{
    if maps.len() > 0 {
        count_is_bounded(maps.drop_last(), o);
    }
}

/// A mapping counts.
proof fn mapped_counts(maps: Seq<MapRecord>, o: int, k: int)
    requires
        0 <= k < maps.len(),
        maps[k].used,
        maps[k].memory == o,
    ensures
        count_maps(maps, o) >= 1,
    decreases maps.len(),
{
    if k < maps.len() - 1 {
        assert(maps.drop_last()[k] == maps[k]);
        mapped_counts(maps.drop_last(), o, k);
    }
}

/// What is not mapped counts for nothing.
pub proof fn unmapped_counts_none(maps: Seq<MapRecord>, o: int)
    requires
        is_unmapped(maps, o),
    ensures
        count_maps(maps, o) == 0,
    decreases maps.len(),
{
    if maps.len() > 0 {
        assert forall|k: int|
            0 <= k < maps.drop_last().len() && (#[trigger] maps.drop_last()[k]).used implies
            maps.drop_last()[k].memory != o by {
            assert(maps[k].used);
        }
        unmapped_counts_none(maps.drop_last(), o);
        assert(maps[maps.len() - 1] == maps.last());
    }
}

impl MachineModel {
    /// What the pages of the domains stand on.
    pub open spec fn backing(self) -> Backing {
        Backing {
            pages: self.pages,
            uses: self.uses,
            domains: self.domains,
            memories: self.memories,
            maps: self.maps,
            devices: self.devices,
            device_maps: self.device_maps,
        }
    }
}

/// Whatever a domain reaches is its own: an address that translates in a
/// domain's space leads to a frame that the domain holds, or to a frame of a
/// memory object or a register window that is there and is mapped in that domain
/// over that address.
pub proof fn pages_stand_on_what_is_mapped(machine: Machine, d: int, v: u64)
    requires
        machine.wf(),
        0 <= d < machine@.domains.len(),
        machine@.translated(d, v) is Some,
    ensures
        ({
            let m = machine@.backing();
            let f = target(machine@.translated(d, v)->0) as int / 0x1000;
            ||| m.holds(d, f)
            ||| exists|k: int| #[trigger]
                m.map_backs(k, d, v, f) && m.map_is_live(m.maps[k])
            ||| exists|k: int| #[trigger]
                m.window_backs(k, d, v, f) && m.window_is_live(m.device_maps[k])
        }),
{
    let m = machine@.backing();
    let f = target(machine@.translated(d, v)->0) as int / 0x1000;
    machine.wf_stands();
    reveal(Backing::stands);
    assert(m.has_page(d, v));
    assert(m.page_stands(d, v));
    if m.holds(d, f) {
    } else if exists|k: int| #[trigger] m.map_backs(k, d, v, f) {
        let k = choose|k: int| #[trigger] m.map_backs(k, d, v, f);
        assert(m.map_is_live(m.maps[k]));
    } else {
        let k = choose|k: int| #[trigger] m.window_backs(k, d, v, f);
        assert(m.window_is_live(m.device_maps[k]));
    }
}

} // verus!
