//! Sub-word access inside one 32-bit storage cell.
//!
//! A cell holds four byte lanes, lane 0 in bits 0..8 (the lowest address), and
//! two half-word lanes, half 0 in bits 0..16.  An access never leaves the cell
//! that its address selects: alignment is the caller's business, and a
//! misaligned half-word or word access is served from that one cell.

use vstd::prelude::*;

verus! {

/// Width of a guest access.
#[derive(Clone, Copy, Debug, PartialEq, Eq, Structural)]
pub enum MemAccessSize {
    /// 8 bits
    Byte,
    /// 16 bits
    HalfWord,
    /// 32 bits
    Word,
}

impl MemAccessSize {
    /// Number of bytes that an access of this width covers.
    pub open spec fn spec_len(self) -> u32 {
        match self {
            MemAccessSize::Byte => 1,
            MemAccessSize::HalfWord => 2,
            MemAccessSize::Word => 4,
        }
    }

    /// Number of bytes that an access of this width covers.
    #[verifier::when_used_as_spec(spec_len)]
    pub fn len(self) -> (n: u32)
        ensures
            n == self.spec_len(),
    {
        match self {
            MemAccessSize::Byte => 1,
            MemAccessSize::HalfWord => 2,
            MemAccessSize::Word => 4,
        }
    }
}

/// Byte lane `i` (0 to 3) of a cell, as a value below 256.
pub open spec fn lane(word: u32, i: u32) -> u32 {
    (word >> ((8 * i) as u32)) & 0xff
}

/// Half-word lane `h` (0 or 1) of a cell, as a value below 65536.
pub open spec fn half(word: u32, h: u32) -> u32 {
    (word >> ((16 * h) as u32)) & 0xffff
}

/// The cell with byte lane `i` replaced by the low byte of `data`.
pub open spec fn with_lane(word: u32, i: u32, data: u32) -> u32 {
    (word & !(0xffu32 << ((8 * i) as u32))) | ((data & 0xff) << ((8 * i) as u32))
}

/// The cell with half-word lane `h` replaced by the low half of `data`.
pub open spec fn with_half(word: u32, h: u32, data: u32) -> u32 {
    (word & !(0xffffu32 << ((16 * h) as u32))) | ((data & 0xffff) << ((16 * h) as u32))
}

/// The byte lane that a byte access at `addr` selects.
pub open spec fn lane_of(addr: u32) -> u32 {
    addr % 4
}

/// The half-word lane that a half-word access at `addr` selects: the high
/// half only where the address is 2 modulo 4, the low half otherwise.
pub open spec fn half_of(addr: u32) -> u32 {
    if addr % 4 == 2 {
        1
    } else {
        0
    }
}

/// What a load of width `size` at `addr` yields from the cell `word`.
pub open spec fn load(word: u32, addr: u32, size: MemAccessSize) -> u32 {
    match size {
        MemAccessSize::Byte => lane(word, lane_of(addr)),
        MemAccessSize::HalfWord => half(word, half_of(addr)),
        MemAccessSize::Word => word,
    }
}

/// The cell `word` after a store of the low `size` bytes of `data` at `addr`.
pub open spec fn store(word: u32, addr: u32, size: MemAccessSize, data: u32) -> u32 {
    match size {
        MemAccessSize::Byte => with_lane(word, lane_of(addr), data),
        MemAccessSize::HalfWord => with_half(word, half_of(addr), data),
        MemAccessSize::Word => data,
    }
}

/// The first byte lane that an access of width `size` at `addr` covers.
pub open spec fn first_lane(addr: u32, size: MemAccessSize) -> u32 {
    match size {
        MemAccessSize::Byte => lane_of(addr),
        MemAccessSize::HalfWord => (2 * half_of(addr)) as u32,
        MemAccessSize::Word => 0,
    }
}

/// Whether an access of width `size` at `addr` covers byte lane `j` of its
/// cell.
pub open spec fn covers_lane(addr: u32, size: MemAccessSize, j: u32) -> bool {
    first_lane(addr, size) <= j < first_lane(addr, size) + size.spec_len()
}

/// The low `size` bytes of `data`, the rest zero.
pub open spec fn low_bytes(data: u32, size: MemAccessSize) -> u32 {
    match size {
        MemAccessSize::Byte => data & 0xff,
        MemAccessSize::HalfWord => data & 0xffff,
        MemAccessSize::Word => data,
    }
}

/// Unpacks the value of a load from the cell that holds it.
pub fn extract(word: u32, addr: u32, size: MemAccessSize) -> (value: u32)
    ensures
        value == load(word, addr, size),
{
    let offset: u32 = addr % 4;
    match size {
        MemAccessSize::Byte => {
            proof {
                lemma_lane_masks(word);
            }
            if offset == 0 {
                word & 0xff
            } else if offset == 1 {
                (word >> 8) & 0xff
            } else if offset == 2 {
                (word >> 16) & 0xff
            } else {
                (word >> 24) & 0xff
            }
        },
        MemAccessSize::HalfWord => {
            proof {
                lemma_half_masks(word);
            }
            if offset == 2 {
                (word >> 16) & 0xffff
            } else {
                word & 0xffff
            }
        },
        MemAccessSize::Word => word,
    }
}

/// Packs the low `size` bytes of `data` into the cell, leaving its other
/// bytes as they were.
pub fn merge(word: u32, addr: u32, size: MemAccessSize, data: u32) -> (cell: u32)
    ensures
        cell == store(word, addr, size, data),
{
    let offset: u32 = addr % 4;
    match size {
        MemAccessSize::Byte => {
            proof {
                lemma_with_lane_masks(word, data);
            }
            if offset == 0 {
                (word & 0xffffff00) | (data & 0xff)
            } else if offset == 1 {
                (word & 0xffff00ff) | ((data & 0xff) << 8)
            } else if offset == 2 {
                (word & 0xff00ffff) | ((data & 0xff) << 16)
            } else {
                (word & 0x00ffffff) | ((data & 0xff) << 24)
            }
        },
        MemAccessSize::HalfWord => {
            proof {
                lemma_with_half_masks(word, data);
            }
            if offset == 2 {
                (word & 0x0000ffff) | ((data & 0xffff) << 16)
            } else {
                (word & 0xffff0000) | (data & 0xffff)
            }
        },
        MemAccessSize::Word => data,
    }
}

proof fn lemma_lane_masks(word: u32)
    ensures
        lane(word, 0) == word & 0xff,
        lane(word, 1) == (word >> 8) & 0xff,
        lane(word, 2) == (word >> 16) & 0xff,
        lane(word, 3) == (word >> 24) & 0xff,
{
    assert(word >> 0 == word) by (bit_vector);
}

proof fn lemma_half_masks(word: u32)
    ensures
        half(word, 0) == word & 0xffff,
        half(word, 1) == (word >> 16) & 0xffff,
{
    assert(word >> 0 == word) by (bit_vector);
}

proof fn lemma_with_lane_masks(word: u32, data: u32)
    ensures
        with_lane(word, 0, data) == (word & 0xffffff00) | (data & 0xff),
        with_lane(word, 1, data) == (word & 0xffff00ff) | ((data & 0xff) << 8),
        with_lane(word, 2, data) == (word & 0xff00ffff) | ((data & 0xff) << 16),
        with_lane(word, 3, data) == (word & 0x00ffffff) | ((data & 0xff) << 24),
{
    assert(with_lane(word, 0, data) == (word & 0xffffff00) | (data & 0xff)) by (bit_vector);
    assert(with_lane(word, 1, data) == (word & 0xffff00ff) | ((data & 0xff) << 8)) by (bit_vector);
    assert(with_lane(word, 2, data) == (word & 0xff00ffff) | ((data & 0xff) << 16)) by (bit_vector);
    assert(with_lane(word, 3, data) == (word & 0x00ffffff) | ((data & 0xff) << 24)) by (bit_vector);
}

proof fn lemma_with_half_masks(word: u32, data: u32)
    ensures
        with_half(word, 0, data) == (word & 0xffff0000) | (data & 0xffff),
        with_half(word, 1, data) == (word & 0x0000ffff) | ((data & 0xffff) << 16),
{
    assert(with_half(word, 0, data) == (word & 0xffff0000) | (data & 0xffff)) by (bit_vector);
    assert(with_half(word, 1, data) == (word & 0x0000ffff) | ((data & 0xffff) << 16)) by (bit_vector);
}

/// A cell is its four byte lanes, lane 0 lowest: two cells with the same
/// lanes are the same cell.
pub proof fn lemma_cell_is_lanes(word: u32)
    ensures
        word == lane(word, 0) + 0x100 * lane(word, 1) + 0x1_0000 * lane(word, 2) + 0x100_0000
            * lane(word, 3),
        forall|j: u32| j < 4 ==> #[trigger] lane(word, j) < 0x100,
{
    assert(word == (word & 0xff) + 0x100 * ((word >> 8) & 0xff) + 0x1_0000 * ((word >> 16) & 0xff)
        + 0x100_0000 * ((word >> 24) & 0xff)) by (bit_vector);
    lemma_lane_masks(word);
    assert forall|j: u32| j < 4 implies #[trigger] lane(word, j) < 0x100 by {
        assert(((word >> ((8 * j) as u32)) & 0xff) < 0x100) by (bit_vector);
    }
}

/// A load reads the lanes that it covers, the first of them as the lowest
/// byte of the value, and nothing else.
pub proof fn lemma_load_lanes(word: u32, addr: u32, size: MemAccessSize)
    ensures
        size == MemAccessSize::Byte ==> load(word, addr, size) == lane(
            word,
            first_lane(addr, size),
        ),
        size == MemAccessSize::HalfWord ==> load(word, addr, size) == lane(
            word,
            first_lane(addr, size),
        ) + 0x100 * lane(word, (first_lane(addr, size) + 1) as u32),
        size == MemAccessSize::Word ==> load(word, addr, size) == lane(word, 0) + 0x100 * lane(
            word,
            1,
        ) + 0x1_0000 * lane(word, 2) + 0x100_0000 * lane(word, 3),
{
    lemma_cell_is_lanes(word);
    lemma_lane_masks(word);
    lemma_half_masks(word);
    assert(word & 0xffff == (word & 0xff) + 0x100 * ((word >> 8) & 0xff)) by (bit_vector);
    assert((word >> 16) & 0xffff == ((word >> 16) & 0xff) + 0x100 * ((word >> 24) & 0xff))
        by (bit_vector);
}

/// A store replaces the lanes that it covers by the low bytes of the data,
/// lowest byte first, and leaves every other lane of the cell as it was.
pub proof fn lemma_store_lanes(word: u32, addr: u32, size: MemAccessSize, data: u32, j: u32)
    requires
        j < 4,
    ensures
        lane(store(word, addr, size, data), j) == (if covers_lane(addr, size, j) {
            lane(data, (j - first_lane(addr, size)) as u32)
        } else {
            lane(word, j)
        }),
{
    let i = lane_of(addr);
    let h = half_of(addr);
    match size {
        MemAccessSize::Byte => {
            assert(lane(with_lane(word, i, data), j) == (if j == i {
                lane(data, 0)
            } else {
                lane(word, j)
            })) by (bit_vector)
                requires
                    i < 4,
                    j < 4,
            ;
        },
        MemAccessSize::HalfWord => {
            assert(lane(with_half(word, h, data), j) == (if j == 2 * h {
                lane(data, 0)
            } else if j == 2 * h + 1 {
                lane(data, 1)
            } else {
                lane(word, j)
            })) by (bit_vector)
                requires
                    h < 2,
                    j < 4,
            ;
        },
        MemAccessSize::Word => {},
    }
}

/// A load that follows a store of the same width at the same address yields
/// the low bytes of what was stored.
pub proof fn lemma_load_of_store(word: u32, addr: u32, size: MemAccessSize, data: u32)
    ensures
        load(store(word, addr, size, data), addr, size) == low_bytes(data, size),
{
    let i = lane_of(addr);
    let h = half_of(addr);
    assert(lane(with_lane(word, i, data), i) == data & 0xff) by (bit_vector)
        requires
            i < 4,
    ;
    assert(half(with_half(word, h, data), h) == data & 0xffff) by (bit_vector)
        requires
            h < 2,
    ;
}

} // verus!
