use regalloc::memory::{place, round_up_to_page_size, Placement};

#[test]
fn test_round_up_to_page_size() {
    assert_eq!(round_up_to_page_size(0, 4096), 0);
    assert_eq!(round_up_to_page_size(1, 4096), 4096);
    assert_eq!(round_up_to_page_size(4096, 4096), 4096);
    assert_eq!(round_up_to_page_size(4097, 4096), 8192);
}

#[test]
fn place_fits_in_current_run() {
    assert_eq!(place(3, 4096, 16, 8), (Placement::Current { offset: 8 }, 24));
}

#[test]
fn place_needs_fresh_run() {
    assert_eq!(place(4000, 4096, 200, 16), (Placement::Fresh, 200));
}

#[test]
fn place_aligned_position_past_end() {
    assert_eq!(place(4095, 4096, 1, 4096), (Placement::Fresh, 1));
    assert_eq!(place(4095, 4096, 0, 4096), (Placement::Current { offset: 4096 }, 4096));
}
