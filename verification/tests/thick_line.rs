use embedded_graphics::drawable::Pixel;
use embedded_graphics::geometry::Point;
use embedded_graphics::pixelcolor::BinaryColor;
use embedded_graphics::primitives::line::{Line, LineIterator};
use embedded_graphics::primitives::thick_line::{side_thickness, ThickLine, ThickLineIterator};
use embedded_graphics::style::PrimitiveStyle;

/// All pixels of a line with extent, in the order in which they come.
fn pixels(start: Point, end: Point, width: u32) -> Vec<Point> {
    let style = PrimitiveStyle::with_stroke(BinaryColor::On, width);
    let line = ThickLine::new(start, end, style, false);
    assert!(line.is_drawable());
    let mut it = line.into_iter();
    let mut out = Vec::new();
    loop {
        assert!(it.can_step());
        match it.next() {
            Some(Pixel(point, color)) => {
                assert_eq!(color, BinaryColor::On);
                out.push(point);
            }
            None => break,
        }
    }
    out
}

/// The whole drawing of a line, as the library collects it.
fn drawing(start: Point, end: Point, width: u32) -> Option<Vec<Point>> {
    let style = PrimitiveStyle::with_stroke(BinaryColor::On, width);
    let all = ThickLine::new(start, end, style, false).pixels()?;
    assert!(all.iter().all(|pixel| pixel.1 == BinaryColor::On));
    Some(all.iter().map(|pixel| pixel.0).collect())
}

/// The first `count` pixels of a line.
fn first_pixels(start: Point, end: Point, width: u32, count: usize) -> Vec<Point> {
    let style = PrimitiveStyle::with_stroke(BinaryColor::On, width);
    let mut it = ThickLine::new(start, end, style, false).into_iter();
    let mut out = Vec::new();
    for _ in 0..count {
        match it.next() {
            Some(Pixel(point, _)) => out.push(point),
            None => break,
        }
    }
    out
}

fn thin(start: Point, end: Point) -> Vec<Point> {
    let mut it = LineIterator::new(&Line::new(start, end));
    let mut out = Vec::new();
    while let Some(point) = it.next() {
        out.push(point);
    }
    out
}

fn sorted_set(points: &[Point]) -> Vec<(i32, i32)> {
    let mut set: Vec<(i32, i32)> = points.iter().map(|p| (p.x, p.y)).collect();
    set.sort();
    set.dedup();
    set
}

/// A thin line traced with a running error term, by additions alone.
fn walk_thin(start: (i32, i32), end: (i32, i32)) -> Vec<(i32, i32)> {
    let (mut x, mut y) = start;
    let dx = (end.0 - start.0).abs();
    let dy = -(end.1 - start.1).abs();
    let sx = if start.0 >= end.0 { -1 } else { 1 };
    let sy = if start.1 >= end.1 { -1 } else { 1 };
    let mut err = dx + dy;
    let mut out = Vec::new();
    loop {
        out.push((x, y));
        if (x, y) == end {
            break;
        }
        let doubled = 2 * err;
        if doubled > dy {
            err += dy;
            x += sx;
        }
        if doubled < dx {
            err += dx;
            y += sy;
        }
    }
    out
}

/// The band walked rail by rail, with every counter and error term kept as a
/// plain variable. Gives no more than `limit` pixels.
fn walk_band(start: (i32, i32), end: (i32, i32), width: u32, limit: usize) -> Vec<(i32, i32)> {
    let dx = end.0 - start.0;
    let dy = end.1 - start.1;
    let dir = (if dx >= 0 { 1 } else { -1 }, if dy >= 0 { 1 } else { -1 });
    let budget = (2.0 * width as f64 * ((dx * dx + dy * dy) as f64).sqrt()).round() as i64;
    let (mut major, mut minor) = (dx.abs(), dy.abs());
    let (step_major, step_minor) = if minor > major {
        std::mem::swap(&mut major, &mut minor);
        ((0, dir.1), (dir.0, 0))
    } else {
        ((dir.0, 0), (0, dir.1))
    };
    let threshold = major - 2 * minor;
    let (mut error_l, mut error_r) = (0, 0);
    let (mut start_l, mut end_l, mut start_r, mut end_r) = (start, end, start, end);
    let mut used = (major + minor) as i64;
    let mut left = true;
    let mut out = walk_thin(start, end);
    while used <= budget && out.len() < limit {
        if left {
            if error_l > threshold {
                start_l = (start_l.0 + step_major.0, start_l.1 + step_major.1);
                end_l = (end_l.0 + step_major.0, end_l.1 + step_major.1);
                error_l -= 2 * major;
                used += 2 * minor as i64;
            }
            start_l = (start_l.0 - step_minor.0, start_l.1 - step_minor.1);
            end_l = (end_l.0 - step_minor.0, end_l.1 - step_minor.1);
            error_l += 2 * minor;
            used += 2 * major as i64;
            out.extend(walk_thin(start_l, end_l));
        } else {
            if error_r >= threshold {
                start_r = (start_r.0 - step_major.0, start_r.1 - step_major.1);
                end_r = (end_r.0 - step_major.0, end_r.1 - step_major.1);
                error_r -= 2 * major;
                used += 2 * minor as i64;
            }
            start_r = (start_r.0 + step_minor.0, start_r.1 + step_minor.1);
            end_r = (end_r.0 + step_minor.0, end_r.1 + step_minor.1);
            error_r += 2 * minor;
            used += 2 * major as i64;
            out.extend(walk_thin(start_r, end_r));
        }
        left = !left;
    }
    out.truncate(limit);
    out
}

#[test]
fn horizontal_line_of_width_three_covers_four_rows() {
    assert_eq!(side_thickness(3, 10, 0), 60);
    let out = pixels(Point::new(0, 0), Point::new(10, 0), 3);
    assert_eq!(out.len(), 44);
    let mut rows: Vec<i32> = out.iter().map(|p| p.y).collect();
    rows.sort();
    rows.dedup();
    assert_eq!(rows, vec![-2, -1, 0, 1]);
    assert!(out.iter().all(|p| 0 <= p.x && p.x <= 10));
    for row in -2..=1 {
        for x in 0..=10 {
            assert!(out.contains(&Point::new(x, row)));
        }
    }
}

#[test]
fn horizontal_line_of_width_three_comes_centre_first_then_left_and_right_by_turns() {
    let out = pixels(Point::new(0, 0), Point::new(10, 0), 3);
    let rows: Vec<i32> = out.iter().map(|p| p.y).collect();
    let mut expected = Vec::new();
    for row in [0, -1, 1, -2] {
        for _ in 0..11 {
            expected.push(row);
        }
    }
    assert_eq!(rows, expected);
    let columns: Vec<i32> = out.iter().map(|p| p.x).collect();
    let expected: Vec<i32> = (0..44).map(|i| i % 11).collect();
    assert_eq!(columns, expected);
}

#[test]
fn line_without_extent_has_no_side_thickness_and_starts_with_its_point() {
    assert_eq!(side_thickness(1, 0, 0), 0);
    assert_eq!(side_thickness(4_000_000_000, 0, 0), 0);
    let out = first_pixels(Point::new(7, -3), Point::new(7, -3), 1, 1);
    assert_eq!(out, vec![Point::new(7, -3)]);
}

#[test]
fn line_without_extent_keeps_its_counter_at_zero_and_goes_on() {
    // The counter starts at zero and every step adds zero to it, so it never
    // passes the budget of zero: the rails keep stepping.
    let out = first_pixels(Point::new(0, 0), Point::new(0, 0), 1, 7);
    assert_eq!(
        out,
        vec![
            Point::new(0, 0),
            Point::new(0, -1),
            Point::new(-1, 1),
            Point::new(0, -2),
            Point::new(-2, 2),
            Point::new(0, -3),
            Point::new(-3, 3),
        ]
    );
}

#[test]
fn width_zero_draws_the_centre_line_alone() {
    let start = Point::new(-4, 9);
    let end = Point::new(13, 2);
    assert_eq!(side_thickness(0, 17, -7), 0);
    assert_eq!(pixels(start, end, 0), thin(start, end));
}

#[test]
fn centre_line_comes_first_and_unchanged() {
    let cases = [
        (Point::new(0, 0), Point::new(10, 0)),
        (Point::new(0, 0), Point::new(0, -10)),
        (Point::new(3, 4), Point::new(-9, 11)),
        (Point::new(-5, -5), Point::new(5, 5)),
        (Point::new(2, 1), Point::new(4, 30)),
        (Point::new(100, -100), Point::new(37, -64)),
    ];
    for (start, end) in cases {
        let centre = thin(start, end);
        let out = pixels(start, end, 1);
        assert!(out.len() >= centre.len());
        assert_eq!(&out[..centre.len()], &centre[..]);
        for width in [2, 5] {
            let out = pixels(start, end, width);
            assert_eq!(&out[..centre.len()], &centre[..]);
        }
    }
}

#[test]
fn side_thickness_is_the_rounded_doubled_width_times_length() {
    assert_eq!(side_thickness(1, 3, 4), 10);
    assert_eq!(side_thickness(1, -3, 4), 10);
    assert_eq!(side_thickness(3, -4, -3), 30);
    // 2 * sqrt(2) = 2.83
    assert_eq!(side_thickness(1, 1, 1), 3);
    // 2 * sqrt(5) = 4.47
    assert_eq!(side_thickness(1, 1, 2), 4);
    // 2 * sqrt(10) = 6.32
    assert_eq!(side_thickness(1, 3, 1), 6);
    // 2 * 7 * sqrt(13) = 50.48
    assert_eq!(side_thickness(7, 2, -3), 50);
    // 2 * 3 * sqrt(29) = 32.31
    assert_eq!(side_thickness(3, 5, 2), 32);
    assert_eq!(side_thickness(0, 100, 100), 0);
}

#[test]
fn side_thickness_agrees_with_floating_point_on_a_grid() {
    for width in 0u32..12 {
        for dx in -25i32..=25 {
            for dy in -25i32..=25 {
                let length = ((dx * dx + dy * dy) as f64).sqrt();
                let expected = (2.0 * width as f64 * length).round() as u64;
                assert_eq!(side_thickness(width, dx, dy), expected);
            }
        }
    }
}

#[test]
fn side_thickness_of_the_longest_and_widest_stroke() {
    // The longest line along an axis, with the widest stroke.
    let t = side_thickness(u32::MAX, 46340, 0);
    assert_eq!(t, 2 * 4_294_967_295u64 * 46340);
    // 32767^2 + 32767^2 = 2147352578
    let t = side_thickness(u32::MAX, 32767, -32767);
    let exact = 2.0 * 4_294_967_295f64 * (2147352578f64).sqrt();
    assert!((t as f64 - exact).abs() < 1.0);
}

#[test]
fn swapping_the_ends_keeps_the_set_of_pixels() {
    // Lines along an axis.
    for width in 0..6 {
        let a = Point::new(-3, 5);
        let b = Point::new(8, 5);
        assert_eq!(sorted_set(&pixels(a, b, width)), sorted_set(&pixels(b, a, width)));
        let b = Point::new(-3, -9);
        assert_eq!(sorted_set(&pixels(a, b, width)), sorted_set(&pixels(b, a, width)));
    }
    // A line with an odd major extent, with as many segments on one side as
    // on the other: side thickness 22, and the counter runs 7, 17, 27.
    let a = Point::new(0, 0);
    let b = Point::new(5, 2);
    assert_eq!(side_thickness(2, 5, 2), 22);
    let forward = pixels(a, b, 2);
    let backward = pixels(b, a, 2);
    assert_eq!(forward.len(), 18);
    assert_eq!(sorted_set(&forward), sorted_set(&backward));
    // The centre line alone.
    let b = Point::new(7, 3);
    assert_eq!(sorted_set(&pixels(a, b, 0)), sorted_set(&pixels(b, a, 0)));
}

#[test]
fn swapping_the_ends_moves_an_unpaired_rail_to_the_other_side() {
    // Side thickness 32, the counter runs 7, 17, 27, 41: two segments of the
    // left rail and one of the right rail, and left is where the line looks.
    let a = Point::new(0, 0);
    let b = Point::new(5, 2);
    assert_eq!(side_thickness(3, 5, 2), 32);
    let forward = pixels(a, b, 3);
    let backward = pixels(b, a, 3);
    assert_eq!(forward.len(), 24);
    assert_eq!(backward.len(), 24);
    assert_eq!(forward[18], Point::new(1, -2));
    assert_eq!(backward[18], Point::new(4, 4));
    assert!(!backward.contains(&Point::new(1, -2)));
    assert!(!forward.contains(&Point::new(4, 4)));
}

#[test]
fn equal_lines_give_equal_sequences() {
    let cases = [
        (Point::new(0, 0), Point::new(10, 0), 3),
        (Point::new(3, 4), Point::new(-9, 11), 4),
        (Point::new(2, 1), Point::new(4, 30), 7),
    ];
    for (start, end, width) in cases {
        let first = pixels(start, end, width);
        let second = pixels(start, end, width);
        assert_eq!(first, second);
        // Neither the cap flag nor the fill colour changes the pixels.
        let mut style = PrimitiveStyle::with_stroke(BinaryColor::On, width);
        style.fill_color = Some(BinaryColor::Off);
        let mut it = ThickLineIterator::new(&ThickLine::new(start, end, style, true), style);
        let mut third = Vec::new();
        while let Some(Pixel(point, _)) = it.next() {
            third.push(point);
        }
        assert_eq!(first, third);
    }
}

#[test]
fn every_pixel_lies_within_the_reach_of_the_centre_line() {
    for width in 0u32..9 {
        for (dx, dy) in [(10, 0), (0, 10), (7, 3), (-7, 3), (3, -7), (-3, -7), (6, 6), (1, 0), (13, 12)] {
            let start = Point::new(20, -30);
            let end = Point::new(20 + dx, -30 + dy);
            let major = dx.abs().max(dy.abs()) as u64;
            let reach = (side_thickness(width, dx, dy) / (4 * major) + 1) as i32;
            let (min_x, max_x) = (start.x.min(end.x) - reach, start.x.max(end.x) + reach);
            let (min_y, max_y) = (start.y.min(end.y) - reach, start.y.max(end.y) + reach);
            for p in pixels(start, end, width) {
                assert!(min_x <= p.x && p.x <= max_x);
                assert!(min_y <= p.y && p.y <= max_y);
            }
        }
    }
}

#[test]
fn drawing_is_a_whole_number_of_segments_as_long_as_the_centre_line() {
    for width in 0u32..9 {
        for (dx, dy) in [(10, 0), (0, 10), (7, 3), (-7, 3), (3, -7), (6, 6), (1, 0), (13, 12)] {
            let start = Point::new(-8, 5);
            let end = Point::new(-8 + dx, 5 + dy);
            let len = dx.abs().max(dy.abs()) as usize + 1;
            let out = pixels(start, end, width);
            assert_eq!(out.len() % len, 0);
            // No more segments than the side thickness and two.
            let segments = (out.len() / len) as u64;
            assert!(1 <= segments && segments <= side_thickness(width, dx, dy) + 2);
            // Each is the centre line, moved.
            for segment in out.chunks(len) {
                let by = (segment[0].x - start.x, segment[0].y - start.y);
                for (moved, centre) in segment.iter().zip(&out[..len]) {
                    assert_eq!((moved.x - centre.x, moved.y - centre.y), by);
                }
            }
        }
    }
}

#[test]
fn thickness_counter_decides_how_many_segments_are_drawn() {
    // Along an axis every rail step adds twice the length: the counter runs
    // 10, 30, 50, ... and a segment is drawn for each value within the side
    // thickness of 20 times the width.
    for width in 0u32..20 {
        let out = pixels(Point::new(0, 0), Point::new(10, 0), width);
        let segments = out.len() / 11;
        let expected = if width == 0 { 1 } else { 1 + (20 * width as usize - 10) / 20 + 1 };
        assert_eq!(segments, expected);
    }
}

#[test]
fn whole_drawing_is_what_comes_pixel_by_pixel() {
    for width in 0u32..6 {
        for (dx, dy) in [(10, 0), (0, -10), (7, 3), (-3, -7), (6, 6), (1, 0), (13, 12)] {
            let start = Point::new(1, 2);
            let end = Point::new(1 + dx, 2 + dy);
            assert_eq!(drawing(start, end, width), Some(pixels(start, end, width)));
        }
    }
    let corner = Point::new(i32::MAX, i32::MIN);
    assert_eq!(
        drawing(corner, Point::new(i32::MAX - 4, i32::MIN), 0),
        Some((0..5).map(|i| Point::new(i32::MAX - i, i32::MIN)).collect())
    );
}

#[test]
fn line_that_cannot_be_drawn_as_a_whole_has_no_drawing() {
    // A line without extent never ends.
    assert_eq!(drawing(Point::new(3, 3), Point::new(3, 3), 1), None);
    assert_eq!(drawing(Point::new(3, 3), Point::new(3, 3), 0), None);
    // Too long.
    assert_eq!(drawing(Point::new(0, 0), Point::new(46341, 0), 1), None);
    assert_eq!(drawing(Point::new(i32::MIN, 0), Point::new(i32::MAX, 0), 1), None);
    // The left rail leaves the grid; without a rail the line stays on it.
    let start = Point::new(0, i32::MIN);
    let end = Point::new(10, i32::MIN);
    assert_eq!(drawing(start, end, 1), None);
    assert!(drawing(start, end, 0).is_some());
    // The left rail has a row to step to, the right rail has not: a width
    // of one draws the left rail alone, a width of two both.
    let start = Point::new(0, i32::MAX);
    let end = Point::new(10, i32::MAX);
    assert_eq!(drawing(start, end, 1).map(|all| all.len()), Some(22));
    assert_eq!(drawing(start, end, 2), None);
    assert_eq!(drawing(end, start, 2), None);
    // No stroke colour.
    let mut style = PrimitiveStyle::with_stroke(BinaryColor::On, 2);
    style.stroke_color = None;
    assert_eq!(ThickLine::new(Point::new(0, 0), Point::new(5, 5), style, false).pixels(), None);
    let style: PrimitiveStyle<BinaryColor> = PrimitiveStyle::new();
    assert_eq!(ThickLine::new(Point::new(0, 0), Point::new(5, 5), style, false).pixels(), None);
}

#[test]
fn pixels_are_those_of_the_rail_walk() {
    for width in 0u32..7 {
        for x in -6i32..=6 {
            for y in -6i32..=6 {
                if x == 0 && y == 0 {
                    continue;
                }
                let start = Point::new(3, -2);
                let end = Point::new(3 + x, -2 + y);
                let expected = walk_band((3, -2), (3 + x, -2 + y), width, usize::MAX);
                let got: Vec<(i32, i32)> =
                    pixels(start, end, width).iter().map(|p| (p.x, p.y)).collect();
                assert_eq!(got, expected);
            }
        }
    }
}

#[test]
fn pixels_of_a_point_are_those_of_the_rail_walk() {
    for width in [0u32, 1, 5] {
        let expected = walk_band((4, 4), (4, 4), width, 40);
        let got: Vec<(i32, i32)> = first_pixels(Point::new(4, 4), Point::new(4, 4), width, 40)
            .iter()
            .map(|p| (p.x, p.y))
            .collect();
        assert_eq!(got, expected);
    }
}

#[test]
fn diagonal_line_of_width_one() {
    // Side thickness 2 * sqrt(8) = 5.66, so 6; the counter starts at 4, and
    // a step of the left rail along both axes takes it to 12.
    assert_eq!(side_thickness(1, 2, 2), 6);
    let out = pixels(Point::new(0, 0), Point::new(2, 2), 1);
    assert_eq!(
        out,
        vec![
            Point::new(0, 0),
            Point::new(1, 1),
            Point::new(2, 2),
            Point::new(1, -1),
            Point::new(2, 0),
            Point::new(3, 1),
        ]
    );
}

#[test]
fn steep_line_steps_its_rails_along_x() {
    // Side thickness 2 * 2 * sqrt(26) = 20.4, so 20; the counter runs
    // 6, 16, 28: two rail segments.
    assert_eq!(side_thickness(2, 1, 5), 20);
    let out = pixels(Point::new(0, 0), Point::new(1, 5), 2);
    assert_eq!(out.len(), 18);
    assert_eq!(&out[6..8], &[Point::new(-1, 0), Point::new(-1, 1)]);
    assert_eq!(out[11], Point::new(0, 5));
    assert_eq!(out[12], Point::new(1, 0));
    assert_eq!(out[17], Point::new(2, 5));
}

#[test]
fn line_is_drawable_up_to_a_squared_length_of_i32_max() {
    let style = PrimitiveStyle::with_stroke(BinaryColor::On, 1);
    let origin = Point::new(0, 0);
    // 46340^2 + 297^2 = 2147483809 is too long, 46340^2 + 296^2 = 2147483216
    // is not.
    assert!(ThickLine::new(origin, Point::new(46340, 296), style, false).is_drawable());
    assert!(!ThickLine::new(origin, Point::new(46340, 297), style, false).is_drawable());
    assert!(!ThickLine::new(origin, Point::new(46341, 0), style, false).is_drawable());
    assert!(!ThickLine::new(origin, Point::new(0, -46341), style, false).is_drawable());
    assert!(!ThickLine::new(
        Point::new(i32::MIN, i32::MIN),
        Point::new(i32::MAX, i32::MAX),
        style,
        false
    )
    .is_drawable());
    assert!(ThickLine::new(
        Point::new(i32::MAX, i32::MIN),
        Point::new(i32::MAX - 46340, i32::MIN),
        style,
        false
    )
    .is_drawable());
}

#[test]
fn rail_step_off_the_grid_is_announced() {
    let style = PrimitiveStyle::with_stroke(BinaryColor::On, 3);
    // The left rail of a line towards positive x moves towards negative y.
    let start = Point::new(0, i32::MIN);
    let end = Point::new(10, i32::MIN);
    let mut it = ThickLine::new(start, end, style, false).into_iter();
    for x in 0..=10 {
        assert!(it.can_step());
        assert_eq!(it.next(), Some(Pixel(Point::new(x, i32::MIN), BinaryColor::On)));
    }
    assert!(!it.can_step());
    // Along the lower edge of the grid the first step is fine, and the second
    // would take the right rail off it.
    let start = Point::new(0, i32::MAX);
    let end = Point::new(10, i32::MAX);
    let mut it = ThickLine::new(start, end, style, false).into_iter();
    for _ in 0..22 {
        assert!(it.can_step());
        assert!(it.next().is_some());
    }
    assert!(!it.can_step());
}

#[test]
fn cap_is_there_where_it_is_asked_for() {
    let style = PrimitiveStyle::with_stroke(BinaryColor::On, 3);
    let start = Point::new(0, 0);
    let end = Point::new(10, 0);
    let without = ThickLine::new(start, end, style, false).into_iter();
    assert!(without.extra_perp().is_none());
    let with = ThickLine::new(start, end, style, true).into_iter();
    let mut cap = with.extra_perp().unwrap();
    // Side thickness 60; the counter of the cap runs 10, 30, 50, 70.
    let mut row = Vec::new();
    while let Some(point) = cap.next() {
        row.push(point);
    }
    assert_eq!(
        row,
        vec![Point::new(0, 0), Point::new(0, -1), Point::new(0, -2), Point::new(0, -3)]
    );
    // Drawing the line leaves its cap as it was.
    let mut with = ThickLine::new(start, end, style, true).into_iter();
    let before = with.extra_perp();
    while with.next().is_some() {}
    assert_eq!(with.extra_perp(), before);
}
