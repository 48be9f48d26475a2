use apple2::tui::cycle_target;
use apple2::tui::flash_phase;
use apple2::tui::FLASH_INTERVAL;

#[test]
fn flash_changes_every_half_second() {
    assert_eq!(FLASH_INTERVAL, 500);
    assert!(!flash_phase(0));
    assert!(!flash_phase(499));
    assert!(!flash_phase(500));
    assert!(flash_phase(501));
    assert!(flash_phase(999));
    assert!(!flash_phase(1000));
    assert!(!flash_phase(1500));
    assert!(flash_phase(1501));
    assert!(flash_phase(1_700_000_000_750));
    assert!(!flash_phase(1_700_000_000_250));
}

#[test]
fn cycles_follow_the_clock() {
    assert_eq!(cycle_target(0, 0, 2000), 0);
    assert_eq!(cycle_target(100, 16, 2000), 32100);
    assert_eq!(cycle_target(7, 1, 1), 8);
    assert_eq!(cycle_target(7, 5, 0), 7);
    // as far as 64 bits count
    assert_eq!(cycle_target(u64::MAX - 10, 1, 2000), u64::MAX);
    assert_eq!(cycle_target(0, u64::MAX, 2), u64::MAX);
    assert_eq!(cycle_target(1, u64::MAX, 1), u64::MAX);
    assert_eq!(cycle_target(0, u64::MAX, 1), u64::MAX);
}
