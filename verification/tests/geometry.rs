use hex_logo::geometry::{
    apothem_of, create_path_points, decoration_offset_coeff, decoration_segments, Point, Segment,
};

fn point(x: i64, y: i64) -> Point {
    Point { x, y }
}

fn segment(x1: i64, y1: i64, x2: i64, y2: i64) -> Segment {
    Segment { start: point(x1, y1), end: point(x2, y2) }
}

#[test]
fn apothem_is_the_radius_times_the_cosine_of_thirty_degrees() {
    assert_eq!(apothem_of(315_000_000), 272_798_002);
    assert_eq!(apothem_of(245_000_000), 212_176_223);
    assert_eq!(apothem_of(1_000_000), 866_025);
    assert_eq!(apothem_of(2), 1);
    assert_eq!(apothem_of(1), 0);
    assert_eq!(apothem_of(0), 0);
}

#[test]
fn apothem_has_the_sign_of_the_radius() {
    assert_eq!(apothem_of(-315_000_000), -272_798_002);
    assert_eq!(apothem_of(-2), -1);
    assert_eq!(apothem_of(-1), 0);
}

#[test]
fn apothem_at_the_ends_of_the_range() {
    assert_eq!(apothem_of(i64::MAX), 7_987_674_492_471_257_549);
    assert_eq!(apothem_of(i64::MIN), -7_987_674_492_471_257_550);
}

#[test]
fn apothem_follows_the_cosine() {
    let cosine = (30.0_f64 * 2.0 * std::f64::consts::PI / 360.0).cos();
    let mut r: i64 = 1;
    while r < 4_000_000_000 {
        let exact = r as f64 * cosine;
        let a = apothem_of(r) as f64;
        assert!(a <= exact + 0.001 && exact - 1.001 <= a);
        r = r * 3 + 1;
    }
}

#[test]
fn vertices_of_the_emblem_at_nine_tenths() {
    assert_eq!(
        create_path_points(350_000_000, 350_000_000, 315_000_000),
        vec![
            point(622_798_002, 192_500_000),
            point(350_000_000, 35_000_000),
            point(77_201_998, 192_500_000),
            point(77_201_998, 507_500_000),
            point(350_000_000, 665_000_000),
            point(622_798_002, 507_500_000),
        ]
    );
}

#[test]
fn vertices_of_the_emblem_at_seven_tenths() {
    assert_eq!(
        create_path_points(350_000_000, 350_000_000, 245_000_000),
        vec![
            point(562_176_223, 227_500_000),
            point(350_000_000, 105_000_000),
            point(137_823_777, 227_500_000),
            point(137_823_777, 472_500_000),
            point(350_000_000, 595_000_000),
            point(562_176_223, 472_500_000),
        ]
    );
}

#[test]
fn vertices_run_clockwise_from_the_upper_right() {
    let v = create_path_points(0, 0, 1_000_000);
    assert!(v[0].x > 0 && v[0].y < 0);
    assert!(v[1].x == 0 && v[1].y < v[0].y);
    assert!(v[2].x < 0 && v[2].y == v[0].y);
    assert!(v[3].x == v[2].x && v[3].y > 0);
    assert!(v[4].x == 0 && v[4].y > v[3].y);
    assert!(v[5].x == v[0].x && v[5].y == v[3].y);
}

#[test]
fn vertices_of_an_odd_radius() {
    assert_eq!(
        create_path_points(0, 0, 3),
        vec![point(2, -1), point(0, -3), point(-2, -1), point(-2, 1), point(0, 3), point(2, 1)]
    );
}

#[test]
fn radius_zero_gives_six_times_the_centre() {
    assert_eq!(create_path_points(5, -9, 0), vec![point(5, -9); 6]);
}

#[test]
fn negative_radius_turns_the_hexagon_about_its_centre() {
    let upright = create_path_points(350_000_000, 350_000_000, 315_000_000);
    let turned = create_path_points(350_000_000, 350_000_000, -315_000_000);
    for i in 0..6 {
        assert_eq!(turned[i].x - 350_000_000, 350_000_000 - upright[i].x);
        assert_eq!(turned[i].y - 350_000_000, 350_000_000 - upright[i].y);
    }
    assert_eq!(turned[0], point(77_201_998, 507_500_000));
}

#[test]
fn vertices_at_the_ends_of_the_range() {
    let v = create_path_points(0, -1, i64::MAX);
    assert_eq!(v[1], point(0, i64::MIN));
    assert_eq!(v[4], point(0, i64::MAX - 1));
    assert_eq!(v[0], point(7_987_674_492_471_257_549, -1 - i64::MAX / 2));
}

#[test]
fn vertices_lie_on_the_circle() {
    let (cx, cy, r): (i64, i64, i64) = (350_000_000, -20_000_000, 123_456_789);
    let cosine = (30.0_f64 * 2.0 * std::f64::consts::PI / 360.0).cos();
    let sine = (30.0_f64 * 2.0 * std::f64::consts::PI / 360.0).sin();
    let (a, b) = (r as f64 * cosine, r as f64 * sine);
    let (x, y) = (cx as f64, cy as f64);
    let exact = [
        (x + a, y - b),
        (x, y - r as f64),
        (x - a, y - b),
        (x - a, y + b),
        (x, y + r as f64),
        (x + a, y + b),
    ];
    let v = create_path_points(cx, cy, r);
    assert_eq!(v.len(), 6);
    for i in 0..6 {
        assert!((v[i].x as f64 - exact[i].0).abs() < 1.001);
        assert!((v[i].y as f64 - exact[i].1).abs() < 1.001);
        let dx = (v[i].x - cx) as i128;
        let dy = (v[i].y - cy) as i128;
        let rr = (r as i128) * (r as i128);
        assert!(dx * dx + dy * dy <= rr);
        assert!(rr < (dx.abs() + 1) * (dx.abs() + 1) + (dy.abs() + 1) * (dy.abs() + 1));
    }
}

#[test]
fn neighbouring_vertices_are_one_radius_apart() {
    let r: i64 = 123_456_789;
    let v = create_path_points(350_000_000, -20_000_000, r);
    for i in 0..6 {
        let dx = (v[(i + 1) % 6].x - v[i].x) as f64;
        let dy = (v[(i + 1) % 6].y - v[i].y) as f64;
        assert!(((dx * dx + dy * dy).sqrt() - r as f64).abs() < 1.5);
    }
}

#[test]
fn offset_coeff_is_the_height_of_the_left_side() {
    let v = create_path_points(350_000_000, 350_000_000, 315_000_000);
    assert_eq!(decoration_offset_coeff(&v), 315_000_000);
    assert_eq!(decoration_offset_coeff(&v), v[3].y - v[2].y);
    let v = create_path_points(350_000_000, 350_000_000, 1_000_001);
    assert_eq!(decoration_offset_coeff(&v), 1_000_000);
}

#[test]
fn offset_coeff_reads_two_vertices_only() {
    let v = vec![point(9, 9), point(8, 8), point(7, 10), point(6, 45), point(5, 5), point(4, 4)];
    assert_eq!(decoration_offset_coeff(&v), 35);
}

#[test]
fn offset_coeff_changes_sign_in_the_mirror() {
    let v = create_path_points(350_000_000, 350_000_000, 315_000_000);
    let mirrored: Vec<Point> = v.iter().map(|p| point(p.x, 2 * 100_000_000 - p.y)).collect();
    assert_eq!(decoration_offset_coeff(&mirrored), -315_000_000);
    assert_eq!(decoration_offset_coeff(&mirrored), -decoration_offset_coeff(&v));
}

#[test]
fn strokes_of_the_emblem_at_nine_tenths() {
    let v = create_path_points(350_000_000, 350_000_000, 315_000_000);
    assert_eq!(
        decoration_segments(&v, 315_000_000),
        vec![
            segment(77_201_998, 239_750_000, 460_250_000, 665_000_000),
            segment(277_550_000, 35_000_000, 622_798_002, 545_300_000),
            segment(384_650_000, 35_000_000, 77_201_998, 665_000_000),
            segment(554_750_000, 35_000_000, 187_451_998, 665_000_000),
            segment(624_798_002, 365_750_000, 460_250_000, 665_000_000),
        ]
    );
}

#[test]
fn strokes_of_the_emblem_at_seven_tenths() {
    let v = create_path_points(350_000_000, 350_000_000, 245_000_000);
    assert_eq!(
        decoration_segments(&v, 245_000_000),
        vec![
            segment(137_823_777, 264_250_000, 435_750_000, 595_000_000),
            segment(293_650_000, 105_000_000, 562_176_223, 501_900_000),
            segment(376_950_000, 105_000_000, 137_823_777, 595_000_000),
            segment(509_250_000, 105_000_000, 223_573_777, 595_000_000),
            segment(564_176_223, 362_250_000, 435_750_000, 595_000_000),
        ]
    );
}

#[test]
fn strokes_round_each_offset_toward_zero() {
    let v = create_path_points(-5, 9, -1_000_001);
    assert_eq!(
        decoration_segments(&v, -1_000_000),
        vec![
            segment(866_021, 350_009, -350_005, -999_992),
            segment(229_995, 1_000_010, -866_031, -619_991),
            segment(-110_005, 1_000_010, 866_021, -999_992),
            segment(-650_005, 1_000_010, 516_021, -999_992),
            segment(1_133_969, -49_991, -350_005, -999_992),
        ]
    );
}

#[test]
fn strokes_with_unit_zero_keep_the_nudge() {
    let v = create_path_points(350_000_000, 350_000_000, 0);
    let s = decoration_segments(&v, 0);
    assert_eq!(s.len(), 5);
    assert_eq!(s[4], segment(352_000_000, 350_000_000, 350_000_000, 350_000_000));
    for i in 0..4 {
        assert_eq!(s[i], segment(350_000_000, 350_000_000, 350_000_000, 350_000_000));
    }
}
