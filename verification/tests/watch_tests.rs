use guest_memory::watch::{evaluate, kind_observes, ranges_overlap, scan};
use guest_memory::{MemAccessSize, Memory, WatchKind};

#[test]
fn kinds_and_directions() {
    assert!(kind_observes(WatchKind::Write, true));
    assert!(!kind_observes(WatchKind::Write, false));
    assert!(!kind_observes(WatchKind::Read, true));
    assert!(kind_observes(WatchKind::Read, false));
    assert!(kind_observes(WatchKind::Access, true));
    assert!(kind_observes(WatchKind::Access, false));
}

#[test]
fn overlap_when_access_starts_inside() {
    assert!(ranges_overlap(100, 8, 100, 1));
    assert!(ranges_overlap(100, 8, 104, 4));
    assert!(ranges_overlap(100, 8, 107, 1));
    assert!(!ranges_overlap(100, 8, 108, 1));
    assert!(!ranges_overlap(100, 8, 200, 4));
}

#[test]
fn overlap_when_access_starts_below() {
    assert!(ranges_overlap(200, 4, 198, 4));
    assert!(ranges_overlap(200, 4, 190, 100));
    assert!(!ranges_overlap(200, 4, 190, 4));
    assert!(!ranges_overlap(200, 4, 195, 4));
}

#[test]
fn access_that_ends_at_the_base_counts() {
    assert!(ranges_overlap(200, 4, 196, 4));
    assert!(ranges_overlap(200, 4, 199, 1));
}

#[test]
fn overlap_sums_do_not_wrap() {
    assert!(ranges_overlap(0xFFFF_FFF0, 0x20, 0xFFFF_FFF8, 4));
    assert!(ranges_overlap(0xFFFF_FFF0, 0xFFFF_FFFF, 0xFFFF_FFFF, 4));
    assert!(ranges_overlap(0xFFFF_FFF0, 4, 0xFFFF_FFE0, 0xFFFF_FFFF));
    assert!(!ranges_overlap(0x10, 4, 0xFFFF_FFFE, 4));
}

#[test]
fn empty_watch_range_is_met_only_from_below() {
    assert!(!ranges_overlap(100, 0, 100, 4));
    assert!(ranges_overlap(100, 0, 98, 4));
}

#[test]
fn scan_returns_the_earliest_tripped() {
    let ws = vec![
        (100, 4, WatchKind::Read),
        (100, 4, WatchKind::Write),
        (96, 16, WatchKind::Access),
    ];
    assert_eq!(scan(&ws, 100, 4, true), Some(1));
    assert_eq!(scan(&ws, 100, 4, false), Some(0));
    assert_eq!(scan(&ws, 108, 4, true), Some(2));
    assert_eq!(scan(&ws, 300, 4, true), None);
    assert_eq!(scan(&Vec::new(), 100, 4, true), None);
}

#[test]
fn evaluate_keeps_a_pending_trigger() {
    let ws = vec![(100, 4, WatchKind::Access)];
    let pending = Some((WatchKind::Read, 7));
    assert_eq!(evaluate(&ws, pending, 100, 4, true), pending);
    assert_eq!(evaluate(&ws, pending, 500, 4, true), pending);
}

#[test]
fn evaluate_records_kind_and_access_start() {
    let ws = vec![(100, 4, WatchKind::Read), (100, 8, WatchKind::Access)];
    assert_eq!(evaluate(&ws, None, 98, 4, true), Some((WatchKind::Access, 98)));
    assert_eq!(evaluate(&ws, None, 98, 4, false), Some((WatchKind::Read, 98)));
    assert_eq!(evaluate(&ws, None, 104, 2, false), Some((WatchKind::Access, 104)));
    assert_eq!(evaluate(&ws, None, 108, 2, false), None);
}

#[test]
fn write_watchpoint_fires_on_write_not_on_read() {
    let mut mem = Memory::new();
    mem.arm(100, 8, WatchKind::Write);
    mem.check_watchpoints(104, 4, false);
    assert_eq!(mem.watch_trigger, None);
    mem.check_watchpoints(104, 4, true);
    assert_eq!(mem.watch_trigger, Some((WatchKind::Write, 104)));
}

#[test]
fn write_watchpoint_fires_on_store_not_on_load() {
    let mut mem = Memory::new();
    mem.arm(0x1000, 8, WatchKind::Write);
    assert_eq!(mem.read_mem(0x1004, MemAccessSize::Word), Some(0));
    assert_eq!(mem.watch_trigger, None);
    assert!(mem.write_mem(0x1004, MemAccessSize::Word, 1));
    assert_eq!(mem.watch_trigger, Some((WatchKind::Write, 0x1004)));
}

#[test]
fn read_watchpoint_fires_on_load_not_on_store() {
    let mut mem = Memory::new();
    mem.arm(0x1000, 8, WatchKind::Read);
    assert!(mem.write_mem(0x1004, MemAccessSize::Word, 1));
    assert_eq!(mem.watch_trigger, None);
    assert_eq!(mem.read_mem(0x1004, MemAccessSize::Byte), Some(1));
    assert_eq!(mem.watch_trigger, Some((WatchKind::Read, 0x1004)));
}

#[test]
fn second_qualifying_access_is_ignored() {
    let mut mem = Memory::new();
    mem.arm(0x1000, 16, WatchKind::Access);
    assert!(mem.write_mem(0x1004, MemAccessSize::Word, 1));
    assert_eq!(mem.watch_trigger, Some((WatchKind::Access, 0x1004)));
    assert!(mem.write_mem(0x1008, MemAccessSize::Word, 2));
    assert_eq!(mem.watch_trigger, Some((WatchKind::Access, 0x1004)));
    assert_eq!(mem.read_mem(0x1000, MemAccessSize::Byte), Some(0));
    assert_eq!(mem.watch_trigger, Some((WatchKind::Access, 0x1004)));
    mem.check_watchpoints(0x100C, 1, false);
    assert_eq!(mem.watch_trigger, Some((WatchKind::Access, 0x1004)));
}

#[test]
fn latch_records_again_after_clear() {
    let mut mem = Memory::new();
    mem.arm(0x1000, 16, WatchKind::Access);
    assert!(mem.write_mem(0x1004, MemAccessSize::Word, 1));
    mem.clear();
    assert_eq!(mem.watch_trigger, None);
    assert_eq!(mem.read_mem(0x1008, MemAccessSize::HalfWord), Some(0));
    assert_eq!(mem.watch_trigger, Some((WatchKind::Access, 0x1008)));
}

#[test]
fn half_open_boundary_of_the_watch_range() {
    let mut mem = Memory::new();
    mem.arm(200, 4, WatchKind::Access);
    mem.check_watchpoints(198, 4, true);
    assert_eq!(mem.watch_trigger, Some((WatchKind::Access, 198)));
    mem.clear();
    mem.check_watchpoints(204, 4, true);
    assert_eq!(mem.watch_trigger, None);
}

#[test]
fn half_open_boundary_through_stores() {
    let mut mem = Memory::new();
    mem.arm(0x2000, 4, WatchKind::Access);
    assert!(mem.write_mem(0x1FFE, MemAccessSize::Word, 5));
    assert_eq!(mem.watch_trigger, Some((WatchKind::Access, 0x1FFE)));
    mem.clear();
    assert!(mem.write_mem(0x2004, MemAccessSize::Word, 5));
    assert_eq!(mem.watch_trigger, None);
}

#[test]
fn access_width_decides_the_reach() {
    let mut mem = Memory::new();
    mem.arm(0x2004, 4, WatchKind::Access);
    assert!(mem.write_mem(0x2001, MemAccessSize::Byte, 5));
    assert_eq!(mem.watch_trigger, None);
    assert!(mem.write_mem(0x2001, MemAccessSize::HalfWord, 5));
    assert_eq!(mem.watch_trigger, None);
    assert!(mem.write_mem(0x2001, MemAccessSize::Word, 5));
    assert_eq!(mem.watch_trigger, Some((WatchKind::Access, 0x2001)));
}

#[test]
fn arm_appends_and_allows_duplicates() {
    let mut mem = Memory::new();
    mem.arm(10, 4, WatchKind::Read);
    mem.arm(20, 4, WatchKind::Write);
    mem.arm(10, 4, WatchKind::Read);
    assert_eq!(
        mem.hw_watchpoints,
        vec![(10, 4, WatchKind::Read), (20, 4, WatchKind::Write), (10, 4, WatchKind::Read)]
    );
}

#[test]
fn disarm_removes_the_earliest_exact_match() {
    let mut mem = Memory::new();
    mem.arm(10, 4, WatchKind::Read);
    mem.arm(20, 4, WatchKind::Write);
    mem.arm(10, 4, WatchKind::Read);
    assert!(mem.disarm(10, 4, WatchKind::Read));
    assert_eq!(mem.hw_watchpoints, vec![(20, 4, WatchKind::Write), (10, 4, WatchKind::Read)]);
    assert!(mem.disarm(10, 4, WatchKind::Read));
    assert_eq!(mem.hw_watchpoints, vec![(20, 4, WatchKind::Write)]);
    assert!(!mem.disarm(10, 4, WatchKind::Read));
    assert_eq!(mem.hw_watchpoints, vec![(20, 4, WatchKind::Write)]);
}

#[test]
fn disarm_needs_all_three_parts_equal() {
    let mut mem = Memory::new();
    mem.arm(10, 4, WatchKind::Read);
    assert!(!mem.disarm(10, 4, WatchKind::Write));
    assert!(!mem.disarm(10, 8, WatchKind::Read));
    assert!(!mem.disarm(11, 4, WatchKind::Read));
    assert_eq!(mem.hw_watchpoints, vec![(10, 4, WatchKind::Read)]);
    assert!(mem.disarm(10, 4, WatchKind::Read));
    assert!(mem.hw_watchpoints.is_empty());
}

#[test]
fn disarmed_watchpoint_no_longer_fires() {
    let mut mem = Memory::new();
    mem.arm(0x1000, 4, WatchKind::Write);
    assert!(mem.disarm(0x1000, 4, WatchKind::Write));
    assert!(mem.write_mem(0x1000, MemAccessSize::Word, 1));
    assert_eq!(mem.watch_trigger, None);
}

#[test]
fn clear_on_an_empty_latch_keeps_it_empty() {
    let mut mem = Memory::new();
    mem.clear();
    assert_eq!(mem.watch_trigger, None);
}
