use game_of_life::layout::{
    cells_along, end_of, origin_of, position_of, vertex_buffer_len, CELL_SIZE, DEVICE_PARTS,
    WINDOW_HEIGHT, WINDOW_WIDTH,
};
use game_of_life::single::round;

/// Pixel counts from all magnitudes, among them those next to powers of two.
fn samples() -> Vec<u32> {
    let mut all: Vec<u32> = (0..3000).collect();
    for bit in 10..32 {
        for offset in 0..40 {
            all.push((1u32 << bit) - 20 + offset);
        }
    }
    let mut x: u32 = 12345;
    for _ in 0..5000 {
        x = x.wrapping_mul(1664525).wrapping_add(1013904223);
        all.push(x);
        all.push(x >> 7);
        all.push(x >> 13);
    }
    all.push(u32::MAX);
    all
}

#[test]
fn rounding_of_whole_numbers_is_single_precision() {
    for n in samples() {
        assert_eq!(round(n as u128, 1), (n as f32) as u128, "{}", n);
        let wide = n as u64 * 4294967291 + n as u64;
        assert_eq!(round(wide as u128, 1), (wide as f32) as u128, "{}", wide);
    }
    assert_eq!(round(u64::MAX as u128, 1), 1u128 << 64);
}

#[test]
fn ties_go_to_the_even_significand() {
    assert_eq!(round(16777217, 1), 16777216);
    assert_eq!(round(16777219, 1), 16777220);
    assert_eq!(round(33554441 * 2, 1), 67108880);
    assert_eq!(round(5, 2), 2);
    assert_eq!(round(7, 2), 4);
    assert_eq!(round(8, 3), 3);
    assert_eq!(round(0, 7), 0);
}

#[test]
fn cells_are_the_single_precision_quotient() {
    for p in samples() {
        assert_eq!(cells_along(p as usize), (p as f32 / 10.0) as usize, "{}", p);
        let wide = p as usize * 4294967291 + p as usize;
        assert_eq!(cells_along(wide), (wide as f32 / 10.0) as usize, "{}", wide);
    }
    assert_eq!(cells_along(usize::MAX), (usize::MAX as f32 / 10.0) as usize);
}

#[test]
fn cells_of_ordinary_windows_are_ten_pixels_each() {
    assert_eq!(cells_along(0), 0);
    assert_eq!(cells_along(9), 0);
    assert_eq!(cells_along(10), 1);
    assert_eq!(cells_along(19), 1);
    assert_eq!(cells_along(800), 80);
    assert_eq!(cells_along(1919), 191);
    assert_eq!(cells_along(16777218), 1677721);
    assert_eq!(cells_along(16777219), 1677722);
}

#[test]
fn longer_sides_hold_no_fewer_cells() {
    let mut all = samples();
    all.sort();
    for pair in all.windows(2) {
        assert!(cells_along(pair[0] as usize) <= cells_along(pair[1] as usize));
    }
}

#[test]
fn opening_window_reserves_38400_vertices() {
    assert_eq!(WINDOW_WIDTH, 800);
    assert_eq!(WINDOW_HEIGHT, 800);
    assert_eq!(CELL_SIZE, 10);
    assert_eq!(vertex_buffer_len(WINDOW_WIDTH, WINDOW_HEIGHT), 38400);
}

#[test]
fn room_is_the_single_precision_product() {
    let all = samples();
    for i in 0..all.len() {
        let (w, h) = (all[i], all[(i * 7 + 3) % all.len()]);
        let count = (w as f32 / 10.0) * (h as f32 / 10.0);
        assert_eq!(vertex_buffer_len(w, h), (count * 6.0) as u64, "{} by {}", w, h);
    }
    assert_eq!(vertex_buffer_len(805, 7), 338);
    assert_eq!(vertex_buffer_len(0, 800), 0);
}

#[test]
fn room_suffices_up_to_the_largest_safe_board() {
    for (w, h) in [(800, 800), (1920, 1080), (7, 9), (16384, 16384), (23650, 23640)] {
        let cells = (cells_along(w as usize) * cells_along(h as usize)) as u64;
        assert!(cells < 5592407);
        assert!(cells * 6 <= vertex_buffer_len(w, h));
    }
    assert_eq!(cells_along(55924070), 5592407);
    assert_eq!(vertex_buffer_len(55924070, 10), 5592407 * 6 - 2);
}

#[test]
fn cells_lie_edge_to_edge() {
    for index in [0usize, 1, 79, 1000, 3355442, 3355443] {
        assert_eq!(origin_of(index), index as u128 * 10);
        assert_eq!(end_of(origin_of(index)), (index as u128 + 1) * 10);
    }
    assert_eq!(origin_of(3355444), 33554440);
    assert_eq!(end_of(33554440), 33554448);
}

#[test]
fn cell_edges_are_single_precision() {
    for index in samples() {
        let origin = index as f32 * 10.0;
        assert_eq!(origin_of(index as usize), origin as u128, "{}", index);
        assert_eq!(end_of(origin as u128), (origin + 10.0) as u128, "{}", index);
    }
}

#[test]
fn positions_are_single_precision() {
    let all = samples();
    for i in 0..all.len() {
        let side = all[(i * 11 + 5) % all.len()];
        if side == 0 {
            continue;
        }
        let pixel = all[i] as f32;
        let expected = (pixel / side as f32) * 2.0 - 1.0;
        let parts = position_of(pixel as u128, side);
        assert_eq!(parts as f32 / DEVICE_PARTS as f32, expected, "{} of {}", pixel, side);
        assert_eq!((parts as f32) as i128, parts);
    }
}

#[test]
fn positions_reach_from_edge_to_edge() {
    for side in [1u32, 10, 333, 800, 1080, 16777216] {
        assert_eq!(position_of(0, side), -(DEVICE_PARTS as i128));
        assert_eq!(position_of(side as u128, side), DEVICE_PARTS as i128);
    }
    assert_eq!(position_of(400, 800), 0);
    assert_eq!(position_of(600, 800), DEVICE_PARTS as i128 / 2);
    assert_eq!(position_of(200, 800), -(DEVICE_PARTS as i128 / 2));
}

#[test]
fn positions_keep_their_order() {
    for side in [7u32, 799, 800, 1366] {
        for pixel in 0..2000u128 {
            assert!(position_of(pixel, side) <= position_of(pixel + 1, side));
        }
    }
}
