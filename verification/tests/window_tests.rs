use datarender::{clamp, frame_window_starts, gather_window, window_indices};

#[test]
fn clamp_below_min_gives_min() {
    assert_eq!(clamp(2, 5, 10), 5);
}

#[test]
fn clamp_inside_range_is_unchanged() {
    assert_eq!(clamp(7, 5, 10), 7);
    assert_eq!(clamp(5, 5, 10), 5);
    assert_eq!(clamp(9, 5, 10), 9);
}

#[test]
fn clamp_at_or_past_max_gives_last_index() {
    assert_eq!(clamp(10, 5, 10), 9);
    assert_eq!(clamp(1000, 0, 3), 2);
}

#[test]
fn clamp_below_min_with_empty_upper_bound() {
    assert_eq!(clamp(0, 1, 0), 1);
}

#[test]
fn clamp_twice_is_clamp_once() {
    for x in 0..20usize {
        let once = clamp(x, 3, 8);
        assert!(3 <= once && once < 8);
        assert_eq!(clamp(once, 3, 8), once);
    }
}

#[test]
fn window_inside_the_list() {
    assert_eq!(window_indices(2, 10), [2, 3, 4, 5, 6, 7]);
}

#[test]
fn window_past_the_end_repeats_last() {
    assert_eq!(window_indices(7, 10), [7, 8, 9, 9, 9, 9]);
    assert_eq!(window_indices(50, 10), [9, 9, 9, 9, 9, 9]);
    assert_eq!(window_indices(0, 1), [0, 0, 0, 0, 0, 0]);
}

#[test]
fn gather_window_picks_vertices() {
    let base: Vec<(u32, char)> = vec![(0, 'a'), (1, 'b'), (2, 'c'), (3, 'd')];
    assert_eq!(
        gather_window(&base, 1),
        [(1, 'b'), (2, 'c'), (3, 'd'), (3, 'd'), (3, 'd'), (3, 'd')]
    );
}

#[test]
fn frame_starts_step_by_six() {
    assert_eq!(frame_window_starts(0, 3), vec![3]);
    let starts = frame_window_starts(1, 10);
    let expected: Vec<usize> = (0..=100usize).step_by(6).map(|i| i + 10).collect();
    assert_eq!(starts, expected);
    assert_eq!(starts.len(), 17);
    assert_eq!(starts[16], 106);
}

#[test]
fn frame_starts_empty_for_negative_count() {
    assert_eq!(frame_window_starts(-1, 0), Vec::<usize>::new());
}

#[test]
fn frame_starts_with_negative_offset_on_a_single_step() {
    assert_eq!(frame_window_starts(0, -1), vec![usize::MAX]);
}
