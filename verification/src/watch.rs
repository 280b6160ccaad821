//! The watchpoint engine: which armed watchpoint, if any, an access trips,
//! and what the pending-trigger latch holds afterwards.
//!
//! Watchpoints are scanned in the order in which they were armed and the
//! first one that the access trips wins.  The latch keeps one trigger: while
//! it holds one, further accesses leave it alone.

use vstd::prelude::*;

verus! {

/// The direction of access that a watchpoint reacts to.
#[derive(Clone, Copy, Debug, PartialEq, Eq, Structural)]
pub enum WatchKind {
    /// Reacts to stores only.
    Write,
    /// Reacts to loads only.
    Read,
    /// Reacts to loads and stores.
    Access,
}

/// A watchpoint `(base, length, kind)`: the bytes `[base, base + length)`,
/// watched for accesses of the given kind.
pub type Watchpoint = (u32, u32, WatchKind);

/// A pending trigger: the kind of the watchpoint that was tripped and the
/// start address of the access that tripped it.
pub type Trigger = (WatchKind, u32);

/// Whether a watchpoint of this kind reacts to an access in the given
/// direction.
pub open spec fn observes(kind: WatchKind, is_write: bool) -> bool {
    match kind {
        WatchKind::Write => is_write,
        WatchKind::Read => !is_write,
        WatchKind::Access => true,
    }
}

/// Whether the access `[addr, addr + len)` meets the watched range
/// `[base, base + watch_len)`: it starts below the range and its end reaches
/// `base`, or it starts inside the range.  The sums are mathematical; they do
/// not wrap.
pub open spec fn overlaps(base: u32, watch_len: u32, addr: u32, len: u32) -> bool {
    ||| addr < base && addr + len >= base
    ||| base <= addr < base + watch_len
}

/// Whether the access trips the watchpoint `w`.
pub open spec fn trips(w: Watchpoint, addr: u32, len: u32, is_write: bool) -> bool {
    observes(w.2, is_write) && overlaps(w.0, w.1, addr, len)
}

/// Whether `i` is the position of the earliest watchpoint that the access
/// trips.
pub open spec fn is_first_trip(
    watchpoints: Seq<Watchpoint>,
    i: int,
    addr: u32,
    len: u32,
    is_write: bool,
) -> bool {
    &&& 0 <= i < watchpoints.len()
    &&& trips(watchpoints[i], addr, len, is_write)
    &&& forall|j: int| 0 <= j < i ==> !trips(#[trigger] watchpoints[j], addr, len, is_write)
}

/// The position of the earliest watchpoint that the access trips, if there is
/// one.
pub open spec fn first_trip(
    watchpoints: Seq<Watchpoint>,
    addr: u32,
    len: u32,
    is_write: bool,
) -> Option<int> {
    if exists|i: int| is_first_trip(watchpoints, i, addr, len, is_write) {
        Some(choose|i: int| is_first_trip(watchpoints, i, addr, len, is_write))
    } else {
        None
    }
}

/// The latch after an access: a pending trigger stays; an empty latch takes
/// the kind of the earliest watchpoint tripped, with the start address of the
/// access, and stays empty where none is tripped.
pub open spec fn latch_after(
    watchpoints: Seq<Watchpoint>,
    latch: Option<Trigger>,
    addr: u32,
    len: u32,
    is_write: bool,
) -> Option<Trigger> {
    if latch is Some {
        latch
    } else {
        match first_trip(watchpoints, addr, len, is_write) {
            Some(i) => Some((watchpoints[i].2, addr)),
            None => None,
        }
    }
}

/// The earliest tripped watchpoint is unique, so `first_trip` is the position
/// `i` as soon as `i` is one.
pub proof fn lemma_first_trip_is(
    watchpoints: Seq<Watchpoint>,
    i: int,
    addr: u32,
    len: u32,
    is_write: bool,
)
    requires
        is_first_trip(watchpoints, i, addr, len, is_write),
    ensures
        first_trip(watchpoints, addr, len, is_write) == Some(i),
{
    let k = choose|k: int| is_first_trip(watchpoints, k, addr, len, is_write);
    if k < i {
        assert(!trips(watchpoints[k], addr, len, is_write));
    } else if i < k {
        assert(!trips(watchpoints[i], addr, len, is_write));
    }
}

/// Where the access trips no watchpoint at all, there is no first one.
pub proof fn lemma_first_trip_none(
    watchpoints: Seq<Watchpoint>,
    addr: u32,
    len: u32,
    is_write: bool,
)
    requires
        forall|j: int|
            0 <= j < watchpoints.len() ==> !trips(#[trigger] watchpoints[j], addr, len, is_write),
    ensures
        first_trip(watchpoints, addr, len, is_write) is None,
{
}

/// The overlap test misses no true overlap: an access that shares a byte
/// with the watched range meets it, also where it reaches beyond both ends of
/// the range.  (The test accepts more: an access that ends exactly at `base`
/// meets the range as well.)
pub proof fn lemma_shared_byte_overlaps(base: u32, watch_len: u32, addr: u32, len: u32, x: int)
    requires
        addr <= x < addr + len,
        base <= x < base + watch_len,
    ensures
        overlaps(base, watch_len, addr, len),
{
}

/// Tells whether a watchpoint of this kind reacts to the direction.
pub fn kind_observes(kind: WatchKind, is_write: bool) -> (r: bool)
    ensures
        r == observes(kind, is_write),
{
    if is_write && kind == WatchKind::Read {
        false
    } else if !is_write && kind == WatchKind::Write {
        false
    } else {
        true
    }
}

/// Tests the access range against the watched range.
pub fn ranges_overlap(base: u32, watch_len: u32, addr: u32, len: u32) -> (r: bool)
    ensures
        r == overlaps(base, watch_len, addr, len),
{
    let watch_end: u64 = base as u64 + watch_len as u64;
    let action_end: u64 = addr as u64 + len as u64;
    if addr < base && action_end >= base as u64 {
        true
    } else {
        addr >= base && (addr as u64) < watch_end
    }
}

/// Finds the earliest watchpoint that the access trips.
pub fn scan(watchpoints: &Vec<Watchpoint>, addr: u32, len: u32, is_write: bool) -> (found: Option<
    usize,
>)
    ensures
        match found {
            Some(i) => first_trip(watchpoints@, addr, len, is_write) == Some(i as int),
            None => first_trip(watchpoints@, addr, len, is_write) is None,
        },
{
    let mut i: usize = 0;
    while i < watchpoints.len()
        invariant
            i <= watchpoints.len(),
            forall|j: int| 0 <= j < i ==> !trips(#[trigger] watchpoints@[j], addr, len, is_write),
        decreases watchpoints.len() - i,
    {
        let entry = watchpoints[i];
        if kind_observes(entry.2, is_write) && ranges_overlap(entry.0, entry.1, addr, len) {
            proof {
                lemma_first_trip_is(watchpoints@, i as int, addr, len, is_write);
            }
            return Some(i);
        }
        i += 1;
    }
    proof {
        lemma_first_trip_none(watchpoints@, addr, len, is_write);
    }
    None
}

/// Evaluates one access against the watchpoints and returns the new latch.
pub fn evaluate(
    watchpoints: &Vec<Watchpoint>,
    latch: Option<Trigger>,
    addr: u32,
    len: u32,
    is_write: bool,
) -> (next: Option<Trigger>)
    ensures
        next == latch_after(watchpoints@, latch, addr, len, is_write),
{
    if latch.is_some() {
        return latch;
    }
    match scan(watchpoints, addr, len, is_write) {
        Some(i) => Some((watchpoints[i].2, addr)),
        None => None,
    }
}

} // verus!
