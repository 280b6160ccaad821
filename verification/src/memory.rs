//! The guest memory: sparse pages of 32-bit cells behind a range check, with
//! the watchpoint engine consulted on every access that passes it.
//!
//! The address space is flat.  Page `p` holds the addresses `1024 * p` to
//! `1024 * p + 1023` in 256 cells of four bytes.  A page comes into being,
//! zero-filled, with the first access that falls into it, and is never
//! removed.

use crate::cell::{extract, first_lane, lane, lane_of, load, merge, store, MemAccessSize};
use crate::watch::{evaluate, latch_after, Trigger, WatchKind, Watchpoint};
use std::collections::BTreeMap;
use vstd::prelude::*;

verus! {

/// Lowest guest address that can be accessed.
pub const GUEST_MIN_MEM: usize = 0x0000_0400;

/// Highest guest address that can be accessed.
pub const GUEST_MAX_MEM: usize = 0x0C00_0000;

/// Whether `addr` lies in the addressable range, both ends included.
pub open spec fn in_range(addr: u32) -> bool {
    GUEST_MIN_MEM <= addr <= GUEST_MAX_MEM
}

/// Index of the page that holds `addr`.
pub open spec fn page_of(addr: u32) -> u32 {
    addr / 1024
}

/// Index, within its page, of the cell that holds `addr`.
pub open spec fn cell_of(addr: u32) -> int {
    ((addr % 1024) / 4) as int
}

/// Address of the first byte that an access of width `size` at `addr`
/// covers: `addr` itself for a byte, the start of the half-word or of the
/// cell that `addr` selects for the wider accesses.
pub open spec fn first_byte(addr: u32, size: MemAccessSize) -> u32 {
    (addr - lane_of(addr) + first_lane(addr, size)) as u32
}

/// Whether an access of width `size` at `addr` covers the byte at `b`: the
/// bytes covered are the `size` bytes from `first_byte` on, all in one cell.
pub open spec fn written(addr: u32, size: MemAccessSize, b: u32) -> bool {
    first_byte(addr, size) <= b < first_byte(addr, size) + size.spec_len()
}

/// A page as it is on first touch: 256 cells of zero.
pub open spec fn zero_page() -> Seq<u32> {
    Seq::new(256, |i: int| 0u32)
}

/// The mathematical state of a guest memory.
#[verifier::ext_equal]
pub struct MemoryView {
    /// The pages that exist, by page index, each a sequence of 256 cells.
    pub pages: Map<u32, Seq<u32>>,
    /// The armed watchpoints, in the order in which they were armed.
    pub watchpoints: Seq<Watchpoint>,
    /// The pending trigger, if there is one.
    pub trigger: Option<Trigger>,
}

impl MemoryView {
    /// Every page that exists has 256 cells.
    pub open spec fn wf(self) -> bool {
        forall|p: u32| #[trigger] self.pages.contains_key(p) ==> self.pages[p].len() == 256
    }

    /// The state of a new memory: no page, no watchpoint, no trigger.
    pub open spec fn empty() -> MemoryView {
        MemoryView { pages: Map::empty(), watchpoints: Seq::empty(), trigger: None }
    }

    /// The cells of page `p`; a page that does not exist reads as zeros.
    pub open spec fn page(self, p: u32) -> Seq<u32> {
        if self.pages.contains_key(p) {
            self.pages[p]
        } else {
            zero_page()
        }
    }

    /// The cell that holds `addr`.
    pub open spec fn cell(self, addr: u32) -> u32 {
        self.page(page_of(addr))[cell_of(addr)]
    }

    /// The byte at `addr`, as a value below 256.
    pub open spec fn byte(self, addr: u32) -> u32 {
        lane(self.cell(addr), lane_of(addr))
    }

    /// The value that a load of width `size` at `addr` yields.
    pub open spec fn read_value(self, addr: u32, size: MemAccessSize) -> u32 {
        load(self.cell(addr), addr, size)
    }

    /// The state after the watchpoints have been evaluated for one access:
    /// only the latch can differ.
    pub open spec fn evaluate(self, addr: u32, len: u32, is_write: bool) -> MemoryView {
        MemoryView {
            trigger: latch_after(self.watchpoints, self.trigger, addr, len, is_write),
            ..self
        }
    }

    /// The state after a load.  Out of range, nothing changes.  In range, the
    /// page of `addr` exists afterwards and the load has been evaluated
    /// against the watchpoints.
    pub open spec fn after_read(self, addr: u32, size: MemAccessSize) -> MemoryView {
        if in_range(addr) {
            MemoryView {
                pages: self.pages.insert(page_of(addr), self.page(page_of(addr))),
                ..self.evaluate(addr, size.spec_len(), false)
            }
        } else {
            self
        }
    }

    /// The state after a store.  Out of range, nothing changes.  In range, the
    /// cell of `addr` holds the stored bytes, every other cell of its page is
    /// as before, and the store has been evaluated against the watchpoints.
    pub open spec fn after_write(self, addr: u32, size: MemAccessSize, data: u32) -> MemoryView {
        if in_range(addr) {
            MemoryView {
                pages: self.pages.insert(
                    page_of(addr),
                    self.page(page_of(addr)).update(
                        cell_of(addr),
                        store(self.cell(addr), addr, size, data),
                    ),
                ),
                ..self.evaluate(addr, size.spec_len(), true)
            }
        } else {
            self
        }
    }

    /// The state after one access: a store of `data` where `is_write`, a
    /// load otherwise.
    pub open spec fn after_access(
        self,
        addr: u32,
        size: MemAccessSize,
        is_write: bool,
        data: u32,
    ) -> MemoryView {
        if is_write {
            self.after_write(addr, size, data)
        } else {
            self.after_read(addr, size)
        }
    }

    /// The state with one more watchpoint, armed last.
    pub open spec fn arm(self, base: u32, len: u32, kind: WatchKind) -> MemoryView {
        MemoryView { watchpoints: self.watchpoints.push((base, len, kind)), ..self }
    }

    /// The state without the earliest watchpoint equal to `(base, len, kind)`;
    /// the same state where there is none.
    pub open spec fn disarm(self, base: u32, len: u32, kind: WatchKind) -> MemoryView {
        MemoryView { watchpoints: self.watchpoints.remove_value((base, len, kind)), ..self }
    }

    /// The state with an empty latch.
    pub open spec fn clear(self) -> MemoryView {
        MemoryView { trigger: None, ..self }
    }
}

/// Guest memory with its watchpoints and the pending-trigger latch.
pub struct Memory {
    /// The pages that exist, by page index.
    pub map: BTreeMap<u32, [u32; 256]>,
    /// The armed watchpoints, in the order in which they were armed.
    pub hw_watchpoints: Vec<(u32, u32, WatchKind)>,
    /// The pending trigger, if there is one.
    pub watch_trigger: Option<(WatchKind, u32)>,
}

impl View for Memory {
    type V = MemoryView;

    open spec fn view(&self) -> MemoryView {
        MemoryView {
            pages: Map::new(|p: u32| self.map@.contains_key(p), |p: u32| self.map@[p]@),
            watchpoints: self.hw_watchpoints@,
            trigger: self.watch_trigger,
        }
    }
}

impl Memory {
    /// A memory with no page, no watchpoint and an empty latch.
    pub fn new() -> (mem: Memory)
        ensures
            mem@ == MemoryView::empty(),
    {
        let mem = Memory { map: BTreeMap::new(), hw_watchpoints: Vec::new(), watch_trigger: None };
        assert(mem@ =~= MemoryView::empty());
        mem
    }

    /// The state of every memory is well formed.
    pub proof fn lemma_view_wf(&self)
        ensures
            self@.wf(),
    {
    }

    /// Evaluates the access `[addr, addr + len)` against the watchpoints.
    /// A pending trigger stays as it is; otherwise the earliest watchpoint
    /// that the access trips sets the latch to its kind and `addr`.
    pub fn check_watchpoints(&mut self, addr: u32, len: u32, is_write: bool)
        ensures
            final(self)@ == old(self)@.evaluate(addr, len, is_write),
            final(self).map == old(self).map,
            final(self).hw_watchpoints == old(self).hw_watchpoints,
    {
        self.watch_trigger = evaluate(&self.hw_watchpoints, self.watch_trigger, addr, len, is_write);
    }

    /// Loads `size` bytes at `addr`.  Fails, and changes nothing, where
    /// `addr` is out of range.  Otherwise the page of `addr` is created if it
    /// did not exist, the load is evaluated against the watchpoints, and the
    /// value comes from the one cell that holds `addr`.
    pub fn read_mem(&mut self, addr: u32, size: MemAccessSize) -> (value: Option<u32>)
        ensures
            value == (if in_range(addr) {
                Some(old(self)@.read_value(addr, size))
            } else {
                None
            }),
            final(self)@ == old(self)@.after_read(addr, size),
            !in_range(addr) ==> *final(self) == *old(self),
    {
        if (addr as usize) < GUEST_MIN_MEM || (addr as usize) > GUEST_MAX_MEM {
            return None;
        }
        let page_idx: u32 = addr >> 10;
        let page_offset: usize = (addr & 0x3ff) as usize;
        proof {
            lemma_page_split(addr);
        }

        if !self.map.contains_key(&page_idx) {
            self.map.insert(page_idx, [0u32; 256]);
        }
        assert(self.map@[page_idx]@ =~= old(self)@.page(page_idx));

        self.check_watchpoints(addr, size.len(), false);
        let word: u32 = self.map.get(&page_idx).unwrap()[page_offset / 4];
        assert(self@ =~= old(self)@.after_read(addr, size));
        Some(extract(word, addr, size))
    }

    /// Stores the low `size` bytes of `data` at `addr`.  Fails, and changes
    /// nothing, where `addr` is out of range.  Otherwise the page of `addr`
    /// is created if it did not exist, the store is evaluated against the
    /// watchpoints, and the bytes go into the one cell that holds `addr`,
    /// whose other bytes stay.
    pub fn write_mem(&mut self, addr: u32, size: MemAccessSize, store_data: u32) -> (done: bool)
        ensures
            done == in_range(addr),
            final(self)@ == old(self)@.after_write(addr, size, store_data),
            !in_range(addr) ==> *final(self) == *old(self),
    {
        if (addr as usize) < GUEST_MIN_MEM || (addr as usize) > GUEST_MAX_MEM {
            return false;
        }
        let page_idx: u32 = addr >> 10;
        let page_offset: usize = (addr & 0x3ff) as usize;
        proof {
            lemma_page_split(addr);
        }

        self.check_watchpoints(addr, size.len(), true);
        let mut page: [u32; 256] = match self.map.remove(&page_idx) {
            Some(page) => page,
            None => [0u32; 256],
        };
        assert(page@ =~= old(self)@.page(page_idx));
        let word: u32 = page[page_offset / 4];
        page[page_offset / 4] = merge(word, addr, size, store_data);
        self.map.insert(page_idx, page);
        assert(self@ =~= old(self)@.after_write(addr, size, store_data));
        true
    }

    /// Arms a watchpoint over `[base, base + len)`.  It is added after those
    /// already armed, also where an equal one is among them.
    pub fn arm(&mut self, base: u32, len: u32, kind: WatchKind)
        ensures
            final(self)@ == old(self)@.arm(base, len, kind),
    {
        self.hw_watchpoints.push((base, len, kind));
        assert(self@ =~= old(self)@.arm(base, len, kind));
    }

    /// Disarms the earliest watchpoint equal to `(base, len, kind)` and tells
    /// whether there was one.
    pub fn disarm(&mut self, base: u32, len: u32, kind: WatchKind) -> (found: bool)
        ensures
            found == old(self)@.watchpoints.contains((base, len, kind)),
            final(self)@ == old(self)@.disarm(base, len, kind),
    {
        let mut i: usize = 0;
        while i < self.hw_watchpoints.len()
            invariant
                *self == *old(self),
                i <= self.hw_watchpoints.len(),
                forall|j: int| 0 <= j < i ==> self.hw_watchpoints@[j] != (base, len, kind),
            decreases self.hw_watchpoints.len() - i,
        {
            let entry = self.hw_watchpoints[i];
            if entry.0 == base && entry.1 == len && entry.2 == kind {
                proof {
                    self.hw_watchpoints@.index_of_first_ensures((base, len, kind));
                }
                self.hw_watchpoints.remove(i);
                assert(self@ =~= old(self)@.disarm(base, len, kind));
                return true;
            }
            i += 1;
        }
        proof {
            self.hw_watchpoints@.index_of_first_ensures((base, len, kind));
        }
        assert(self@ =~= old(self)@.disarm(base, len, kind));
        false
    }

    /// Empties the latch, so that the next access that trips a watchpoint is
    /// recorded again.
    pub fn clear(&mut self)
        ensures
            final(self)@ == old(self)@.clear(),
    {
        self.watch_trigger = None;
        assert(self@ =~= old(self)@.clear());
    }
}

impl Default for Memory {
    fn default() -> (mem: Memory)
        ensures
            mem@ == MemoryView::empty(),
    {
        Memory::new()
    }
}

/// How shifting and masking an address split it into page and offset.
proof fn lemma_page_split(addr: u32)
    ensures
        addr >> 10 == page_of(addr),
        addr & 0x3ff == addr % 1024,
        ((addr & 0x3ff) as usize) / 4 == cell_of(addr),
        cell_of(addr) < 256,
{
    assert(addr >> 10 == addr / 1024) by (bit_vector);
    assert(addr & 0x3ff == addr % 1024) by (bit_vector);
}

} // verus!
