//! Ranges of a domain's memory that an operation reads or writes.

use vstd::prelude::*;

use crate::limits::MAX_DOMAINS;
use crate::page_table::{target, ADDRESS_MASK, USER, WRITABLE};
use crate::protocol::{PAGE_SIZE, USER_MAX_ADDR};
use crate::state::{Machine, MachineModel};

verus! {

impl MachineModel {
    /// A byte of a domain that the domain itself may read, or write.
    pub open spec fn reaches(self, d: int, v: u64, write: bool) -> bool {
        self.translated(d, v) matches Some(e) && e & USER != 0 && (write ==> e & WRITABLE != 0)
    }

    /// Where a byte of a domain lies in memory.
    pub open spec fn byte_of(self, d: int, v: u64) -> int {
        target(self.translated(d, v)->0) + v % 0x1000
    }

    /// Every byte of a range is the domain's to use this way.
    pub open spec fn reaches_all(self, d: int, at: u64, len: int, write: bool) -> bool {
        forall|v: u64| at <= v < at + len ==> #[trigger] self.reaches(d, v, write)
    }
}

/// The bytes that pieces of memory hold, in order: one address each.
pub open spec fn bytes_of(pieces: Seq<(u64, usize)>) -> Seq<int>
    decreases pieces.len(),
{
    if pieces.len() == 0 {
        Seq::empty()
    } else {
        let last = pieces.last();
        bytes_of(pieces.drop_last()) + Seq::new(last.1 as nat, |i: int| last.0 + i)
    }
}

/// A piece of memory is not empty and lies in one page.
pub open spec fn in_one_page(piece: (u64, usize)) -> bool {
    &&& piece.1 > 0
    &&& piece.0 % 0x1000 + piece.1 <= 0x1000
}

/// The range `at..at + len` of a domain as pieces of memory, one per page, each
/// with its physical address and its length; nothing if the range leaves the
/// lower half or one of its pages is absent or not the domain's to use this way.
pub fn user_pieces(machine: &Machine, domain: usize, at: u64, len: usize, write: bool) -> (found:
    Option<Vec<(u64, usize)>>)
    requires
        machine.wf(),
        domain < MAX_DOMAINS,
    ensures
        found is Some == (at + len <= USER_MAX_ADDR && machine@.reaches_all(
            domain as int,
            at,
            len as int,
            write,
        )),
        found matches Some(pieces) ==> {
            &&& bytes_of(pieces@) == Seq::new(
                len as nat,
                |i: int| machine@.byte_of(domain as int, (at + i) as u64),
            )
            &&& forall|i: int| 0 <= i < pieces@.len() ==> in_one_page(#[trigger] pieces@[i])
        },
{
    if at > USER_MAX_ADDR || len as u64 > USER_MAX_ADDR - at {
        return None;
    }
    let end: u64 = at + len as u64;
    let ghost m = machine@;
    let ghost d = domain as int;
    let mut pieces: Vec<(u64, usize)> = Vec::new();
    let mut here: u64 = at;
    assert(bytes_of(pieces@) =~= Seq::new(0, |i: int| m.byte_of(d, (at + i) as u64)));
    while here < end
        invariant
            machine.wf(),
            domain < MAX_DOMAINS,
            m == machine@,
            d == domain,
            at <= here <= end,
            end == at + len,
            end <= USER_MAX_ADDR,
            m.reaches_all(d, at, here - at, write),
            bytes_of(pieces@) == Seq::new(
                (here - at) as nat,
                |i: int| m.byte_of(d, (at + i) as u64),
            ),
            forall|i: int| 0 <= i < pieces@.len() ==> in_one_page(#[trigger] pieces@[i]),
        decreases end - here,
    {
        let entry: u64 = match machine.translate(domain, here) {
            None => {
                assert(!m.reaches(d, here, write));
                return None;
            },
            Some(entry) => entry,
        };
        if entry & USER == 0 || (write && entry & WRITABLE == 0) {
            assert(!m.reaches(d, here, write));
            return None;
        }
        let within: u64 = here % PAGE_SIZE;
        let room: u64 = if PAGE_SIZE - within < end - here {
            PAGE_SIZE - within
        } else {
            end - here
        };
        let base: u64 = entry & ADDRESS_MASK;
        proof {
            assert(entry & ADDRESS_MASK <= ADDRESS_MASK && (entry & ADDRESS_MASK) % 0x1000 == 0)
                by (bit_vector)
                requires
                    ADDRESS_MASK == 0x000F_FFFF_FFFF_F000u64,
            ;
        }
        let piece: (u64, usize) = (base + within, room as usize);
        proof {
            assert forall|v: u64| here <= v < here + room implies {
                &&& #[trigger] m.reaches(d, v, write)
                &&& m.byte_of(d, v) == piece.0 + (v - here)
            } by {
                machine.page_translates_alike(d, v, here);
            }
            assert forall|v: u64| at <= v < here + room implies #[trigger] m.reaches(
                d,
                v,
                write,
            ) by {
                if v < here {
                    assert(m.reaches(d, v, write));
                }
            }
            let held = pieces@;
            let grown = held.push(piece);
            assert(grown.drop_last() =~= held);
            assert(bytes_of(grown) =~= Seq::new(
                (here + room - at) as nat,
                |i: int| m.byte_of(d, (at + i) as u64),
            )) by {
                assert forall|i: int| here - at <= i < here + room - at implies #[trigger] bytes_of(
                    grown,
                )[i] == m.byte_of(d, (at + i) as u64) by {
                    let v = (at + i) as u64;
                    assert(m.reaches(d, v, write));
                }
            }
        }
        pieces.push(piece);
        here = here + room;
    }
    Some(pieces)
}

} // verus!
