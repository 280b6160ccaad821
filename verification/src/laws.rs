//! Laws of the guest memory, stated over its mathematical state and proved
//! from the definitions that the contracts of `Memory` use.

use crate::cell::{
    lane, lane_of, lemma_load_lanes, lemma_load_of_store, lemma_store_lanes, low_bytes,
    MemAccessSize,
};
use crate::memory::{first_byte, in_range, page_of, written, MemoryView};
use crate::watch::{is_first_trip, lemma_first_trip_is, lemma_first_trip_none, trips};
use vstd::prelude::*;

verus! {

/// A word stored at an addressable address is the word that a load from the
/// same address yields.
pub proof fn law_word_round_trip(m: MemoryView, addr: u32, data: u32)
    requires
        m.wf(),
        in_range(addr),
    ensures
        m.after_write(addr, MemAccessSize::Word, data).read_value(addr, MemAccessSize::Word)
            == data,
{
    law_read_back(m, addr, MemAccessSize::Word, data);
}

/// A load that follows a store of the same width at the same addressable
/// address yields the low bytes of what was stored.
pub proof fn law_read_back(m: MemoryView, addr: u32, size: MemAccessSize, data: u32)
    requires
        m.wf(),
        in_range(addr),
    ensures
        m.after_write(addr, size, data).read_value(addr, size) == low_bytes(data, size),
{
    lemma_load_of_store(m.cell(addr), addr, size, data);
}

/// An access leaves a well-formed state well formed.
pub proof fn law_access_keeps_wf(
    m: MemoryView,
    addr: u32,
    size: MemAccessSize,
    is_write: bool,
    data: u32,
)
    requires
        m.wf(),
    ensures
        m.after_access(addr, size, is_write, data).wf(),
{
}

/// An access outside the addressable range changes nothing: neither the
/// pages, nor the watchpoints, nor the latch.
pub proof fn law_out_of_range_is_inert(
    m: MemoryView,
    addr: u32,
    size: MemAccessSize,
    is_write: bool,
    data: u32,
)
    requires
        !in_range(addr),
    ensures
        m.after_access(addr, size, is_write, data) == m,
{
}

/// Pages are created by the access that first touches them and never
/// removed: after an addressable access the pages are those from before and
/// the page of the address.  No access changes the watchpoints.
pub proof fn law_pages_only_grow(
    m: MemoryView,
    addr: u32,
    size: MemAccessSize,
    is_write: bool,
    data: u32,
)
    ensures
        m.after_access(addr, size, is_write, data).pages.dom() == (if in_range(addr) {
            m.pages.dom().insert(page_of(addr))
        } else {
            m.pages.dom()
        }),
        m.after_access(addr, size, is_write, data).watchpoints == m.watchpoints,
{
    let after = m.after_access(addr, size, is_write, data);
    if in_range(addr) {
        assert(after.pages.dom() =~= m.pages.dom().insert(page_of(addr)));
    }
}

/// A page that did not exist reads as zero once an access has touched it,
/// at every byte but those that this access wrote.
pub proof fn law_fresh_page_is_zero(
    m: MemoryView,
    addr: u32,
    size: MemAccessSize,
    is_write: bool,
    data: u32,
    b: u32,
)
    requires
        m.wf(),
        in_range(addr),
        !m.pages.contains_key(page_of(addr)),
        page_of(b) == page_of(addr),
        !(is_write && written(addr, size, b)),
    ensures
        m.after_access(addr, size, is_write, data).pages.contains_key(page_of(addr)),
        m.after_access(addr, size, is_write, data).byte(b) == 0,
{
    assert(lane(0u32, lane_of(b)) == 0) by (bit_vector);
    if is_write {
        law_store_keeps_other_bytes(m, addr, size, data, b);
    }
}

/// A load yields the bytes that it covers in little-endian order: the byte
/// at the lowest address is the lowest byte of the value.
pub proof fn law_load_is_little_endian(m: MemoryView, addr: u32, size: MemAccessSize)
    ensures
        first_byte(addr, size) + size.spec_len() - 1 <= u32::MAX,
        size == MemAccessSize::Byte ==> m.read_value(addr, size) == m.byte(addr),
        size == MemAccessSize::HalfWord ==> m.read_value(addr, size) == m.byte(
            first_byte(addr, size),
        ) + 0x100 * m.byte((first_byte(addr, size) + 1) as u32),
        size == MemAccessSize::Word ==> m.read_value(addr, size) == m.byte(first_byte(addr, size))
            + 0x100 * m.byte((first_byte(addr, size) + 1) as u32) + 0x1_0000 * m.byte(
            (first_byte(addr, size) + 2) as u32,
        ) + 0x100_0000 * m.byte((first_byte(addr, size) + 3) as u32),
{
    lemma_load_lanes(m.cell(addr), addr, size);
}

/// A load changes no byte of the memory.
pub proof fn law_load_keeps_bytes(m: MemoryView, addr: u32, size: MemAccessSize, b: u32)
    ensures
        m.after_read(addr, size).byte(b) == m.byte(b),
{
}

/// A store changes none of the bytes that it does not write: not the other
/// bytes of the cell that it goes to, and no byte of any other cell.
pub proof fn law_store_keeps_other_bytes(
    m: MemoryView,
    addr: u32,
    size: MemAccessSize,
    data: u32,
    b: u32,
)
    requires
        m.wf(),
        !written(addr, size, b),
    ensures
        m.after_write(addr, size, data).byte(b) == m.byte(b),
{
    if in_range(addr) && b / 4 == addr / 4 {
        lemma_store_lanes(m.cell(addr), addr, size, data, lane_of(b));
    }
}

/// A store puts the low bytes of the data, lowest first, at the bytes that
/// it writes.
pub proof fn law_store_sets_bytes(
    m: MemoryView,
    addr: u32,
    size: MemAccessSize,
    data: u32,
    b: u32,
)
    requires
        m.wf(),
        in_range(addr),
        written(addr, size, b),
    ensures
        m.after_write(addr, size, data).byte(b) == lane(
            data,
            (b - first_byte(addr, size)) as u32,
        ),
{
    lemma_store_lanes(m.cell(addr), addr, size, data, lane_of(b));
}

/// While a trigger is pending, an access leaves the latch as it is, whatever
/// watchpoints it would trip.
pub proof fn law_pending_trigger_stays(
    m: MemoryView,
    addr: u32,
    size: MemAccessSize,
    is_write: bool,
    data: u32,
)
    requires
        m.trigger is Some,
    ensures
        m.after_access(addr, size, is_write, data).trigger == m.trigger,
{
}

/// Of two accesses in a row, with the latch not cleared between them, the
/// second does not change what the first left pending.
pub proof fn law_first_trigger_wins(
    m: MemoryView,
    addr1: u32,
    size1: MemAccessSize,
    is_write1: bool,
    data1: u32,
    addr2: u32,
    size2: MemAccessSize,
    is_write2: bool,
    data2: u32,
)
    requires
        m.after_access(addr1, size1, is_write1, data1).trigger is Some,
    ensures
        m.after_access(addr1, size1, is_write1, data1).after_access(
            addr2,
            size2,
            is_write2,
            data2,
        ).trigger == m.after_access(addr1, size1, is_write1, data1).trigger,
{
    law_pending_trigger_stays(
        m.after_access(addr1, size1, is_write1, data1),
        addr2,
        size2,
        is_write2,
        data2,
    );
}

/// With an empty latch, an addressable access that trips a watchpoint leaves
/// pending the kind of the earliest one tripped and its own start address.
pub proof fn law_trigger_records_first_trip(
    m: MemoryView,
    addr: u32,
    size: MemAccessSize,
    is_write: bool,
    data: u32,
    i: int,
)
    requires
        m.trigger is None,
        in_range(addr),
        is_first_trip(m.watchpoints, i, addr, size.spec_len(), is_write),
    ensures
        m.after_access(addr, size, is_write, data).trigger == Some((m.watchpoints[i].2, addr)),
{
    lemma_first_trip_is(m.watchpoints, i, addr, size.spec_len(), is_write);
}

/// With an empty latch, an access that trips no watchpoint leaves the latch
/// empty.
pub proof fn law_no_trip_no_trigger(
    m: MemoryView,
    addr: u32,
    size: MemAccessSize,
    is_write: bool,
    data: u32,
)
    requires
        m.trigger is None,
        forall|j: int|
            0 <= j < m.watchpoints.len() ==> !trips(
                #[trigger] m.watchpoints[j],
                addr,
                size.spec_len(),
                is_write,
            ),
    ensures
        m.after_access(addr, size, is_write, data).trigger is None,
{
    lemma_first_trip_none(m.watchpoints, addr, size.spec_len(), is_write);
}

} // verus!
