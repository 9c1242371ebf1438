use epicycles::geometry::{coord_gap, integer_sqrt, interpolate_coord, Point, Segment};

fn pt(x: i32, y: i32) -> Point {
    Point { x, y }
}

#[test]
fn integer_sqrt_of_small_numbers() {
    assert_eq!(integer_sqrt(0), 0);
    assert_eq!(integer_sqrt(1), 1);
    assert_eq!(integer_sqrt(2), 1);
    assert_eq!(integer_sqrt(3), 1);
    assert_eq!(integer_sqrt(4), 2);
    assert_eq!(integer_sqrt(15), 3);
    assert_eq!(integer_sqrt(16), 4);
    assert_eq!(integer_sqrt(17), 4);
}

#[test]
fn integer_sqrt_of_large_numbers() {
    assert_eq!(integer_sqrt(u128::MAX), u64::MAX);
    assert_eq!(integer_sqrt(1u128 << 64), 1u64 << 32);
    assert_eq!(integer_sqrt((1u128 << 64) - 1), (1u64 << 32) - 1);
    assert_eq!(integer_sqrt(1_000_000_000_000u128 * 1_000_000_000_000u128), 1_000_000_000_000);
}

#[test]
fn integer_sqrt_brackets_its_argument() {
    let mut n: u128 = 0;
    while n < 5000 {
        let r = integer_sqrt(n) as u128;
        assert!(r * r <= n && n < (r + 1) * (r + 1));
        n += 1;
    }
}

#[test]
fn coord_gap_is_symmetric_and_wide() {
    assert_eq!(coord_gap(3, 10), 7);
    assert_eq!(coord_gap(10, 3), 7);
    assert_eq!(coord_gap(-5, -5), 0);
    assert_eq!(coord_gap(i32::MIN, i32::MAX), 0xFFFF_FFFF);
    assert_eq!(coord_gap(i32::MAX, i32::MIN), 0xFFFF_FFFF);
}

#[test]
fn segment_length_of_right_triangles() {
    assert_eq!(Segment { from: pt(0, 0), to: pt(3, 4) }.length(), 5);
    assert_eq!(Segment { from: pt(3, 4), to: pt(0, 0) }.length(), 5);
    assert_eq!(Segment { from: pt(-5, -12), to: pt(0, 0) }.length(), 13);
    assert_eq!(Segment { from: pt(7, 7), to: pt(7, 7) }.length(), 0);
}

#[test]
fn segment_length_rounds_down() {
    assert_eq!(Segment { from: pt(0, 0), to: pt(1, 1) }.length(), 1);
    assert_eq!(Segment { from: pt(0, 0), to: pt(1000, 1000) }.length(), 1414);
}

#[test]
fn segment_length_across_the_whole_grid() {
    let s = Segment { from: pt(i32::MIN, i32::MIN), to: pt(i32::MAX, i32::MAX) };
    assert_eq!(s.length(), 6_074_000_998);
    assert!(s.length() < 0x2_0000_0000);
}

#[test]
fn interpolate_coord_rounds_towards_the_first_end() {
    assert_eq!(interpolate_coord(0, 10, 1, 2), 5);
    assert_eq!(interpolate_coord(0, 10, 1, 3), 3);
    assert_eq!(interpolate_coord(10, 0, 1, 3), 7);
    assert_eq!(interpolate_coord(-10, 10, 3, 4), 5);
    assert_eq!(interpolate_coord(4, 4, 1, 2), 4);
}

#[test]
fn interpolate_coord_reaches_both_ends() {
    assert_eq!(interpolate_coord(i32::MIN, i32::MAX, 0, 7), i32::MIN);
    assert_eq!(interpolate_coord(i32::MIN, i32::MAX, 7, 7), i32::MAX);
    assert_eq!(interpolate_coord(i32::MAX, i32::MIN, 7, 7), i32::MIN);
}

#[test]
fn point_at_interpolates_both_coordinates() {
    let s = Segment { from: pt(30, 40), to: pt(0, 0) };
    assert_eq!(s.point_at(10, 50), pt(24, 32));
    assert_eq!(s.point_at(0, 50), pt(30, 40));
    assert_eq!(s.point_at(50, 50), pt(0, 0));
}
