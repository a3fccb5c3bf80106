use iboardbot_web::scaling::{
    bounding_box, fit_polylines, scale_polylines, Bounds, Point, Polyline, Range, ScaleError,
    ScaleFactor, COORD_LIMIT,
};

fn p(x: i64, y: i64) -> Point {
    Point { x, y }
}

fn unit() -> ScaleFactor {
    ScaleFactor { num: 1, den: 1 }
}

#[test]
fn scale_identity_leaves_points() {
    let mut d: Vec<Polyline> = vec![vec![p(0, 0), p(17, -4)], vec![p(-9, 33)]];
    let expected = d.clone();
    scale_polylines(&mut d, (0, 0), (unit(), unit()));
    assert_eq!(d, expected);
}

#[test]
fn scale_exact_values() {
    let mut d: Vec<Polyline> = vec![vec![p(10, -7)]];
    scale_polylines(
        &mut d,
        (3, 4),
        (ScaleFactor { num: 3, den: 2 }, ScaleFactor { num: -1, den: 1 }),
    );
    // x: trunc(10 * 3 / 2) + 3 = 18; y: trunc(-7 * -1 / 1) + 4 = 11
    assert_eq!(d, vec![vec![p(18, 11)]]);
}

#[test]
fn scale_truncates_toward_zero() {
    let mut d: Vec<Polyline> = vec![vec![p(-7, 7)]];
    scale_polylines(
        &mut d,
        (0, 0),
        (ScaleFactor { num: 3, den: 2 }, ScaleFactor { num: 3, den: 2 }),
    );
    // -21 / 2 rounds toward zero: -10; 21 / 2 rounds down: 10
    assert_eq!(d, vec![vec![p(-10, 10)]]);
}

#[test]
fn scale_round_trips_whole_factors() {
    let original: Vec<Polyline> = vec![vec![p(7, -3), p(0, 12)], vec![p(-5, -5)]];
    let mut d = original.clone();
    scale_polylines(
        &mut d,
        (10, -4),
        (ScaleFactor { num: 2, den: 1 }, ScaleFactor { num: 2, den: 1 }),
    );
    scale_polylines(
        &mut d,
        (-5, 2),
        (ScaleFactor { num: 1, den: 2 }, ScaleFactor { num: 1, den: 2 }),
    );
    assert_eq!(d, original);
}

#[test]
fn bounding_box_concrete() {
    let d: Vec<Polyline> = vec![vec![p(3, -2), p(-1, 8)], vec![p(10, 0)]];
    assert_eq!(bounding_box(&d), (-1, 10, -2, 8));
}

#[test]
fn bounding_box_empty_is_sentinel() {
    let d: Vec<Polyline> = vec![];
    assert_eq!(
        bounding_box(&d),
        (COORD_LIMIT + 1, -COORD_LIMIT - 1, COORD_LIMIT + 1, -COORD_LIMIT - 1)
    );
}

fn square_bounds(side: i64) -> Bounds {
    Bounds {
        x: Range { min: 0, max: side },
        y: Range { min: 0, max: side },
    }
}

#[test]
fn fit_scales_and_centers() {
    let mut d: Vec<Polyline> = vec![vec![p(0, 0), p(100, 50)]];
    let r = fit_polylines(&mut d, &square_bounds(200));
    assert_eq!(r, Ok(()));
    // uniform factor 200/100 doubles both axes; the y axis is centered
    assert_eq!(d, vec![vec![p(0, 50), p(200, 150)]]);
}

#[test]
fn fit_touches_bounds_on_one_axis() {
    let mut d: Vec<Polyline> = vec![vec![p(40, 7), p(60, 7), p(50, 17)]];
    let r = fit_polylines(&mut d, &square_bounds(100));
    assert_eq!(r, Ok(()));
    let (min_x, max_x, min_y, max_y) = bounding_box(&d);
    assert!(min_x >= 0 && max_x <= 100 && min_y >= 0 && max_y <= 100);
    assert!((min_x == 0 && max_x == 100) || (min_y == 0 && max_y == 100));
}

#[test]
fn fit_degenerate_axis_keeps_other() {
    let mut d: Vec<Polyline> = vec![vec![p(5, 0), p(5, 100)]];
    let bounds = Bounds {
        x: Range { min: 0, max: 10 },
        y: Range { min: 0, max: 100 },
    };
    let r = fit_polylines(&mut d, &bounds);
    assert_eq!(r, Ok(()));
    // the zero-width axis is centered; the other exactly fills its span
    assert_eq!(d, vec![vec![p(5, 0), p(5, 100)]]);
}

#[test]
fn fit_rejects_empty_drawing() {
    let mut d: Vec<Polyline> = vec![];
    let r = fit_polylines(&mut d, &square_bounds(100));
    assert_eq!(r, Err(ScaleError::EmptyDrawing));
    assert!(d.is_empty());
}

#[test]
fn fit_rejects_doubly_degenerate_drawing() {
    let mut d: Vec<Polyline> = vec![vec![p(7, 7)], vec![p(7, 7)]];
    let r = fit_polylines(&mut d, &square_bounds(100));
    assert_eq!(r, Err(ScaleError::DegenerateDrawing));
    assert_eq!(d, vec![vec![p(7, 7)], vec![p(7, 7)]]);
}

#[test]
fn add_padding_shrinks_bounds() {
    let mut b = Bounds {
        x: Range { min: 0, max: 100 },
        y: Range { min: 0, max: 50 },
    };
    assert!(b.add_padding(10));
    assert_eq!(b.x, Range { min: 10, max: 90 });
    assert_eq!(b.y, Range { min: 10, max: 40 });
}

#[test]
fn add_padding_rejects_oversized_padding() {
    let mut b = Bounds {
        x: Range { min: 0, max: 100 },
        y: Range { min: 0, max: 50 },
    };
    assert!(!b.add_padding(30));
    assert_eq!(b.x, Range { min: 0, max: 100 });
    assert_eq!(b.y, Range { min: 0, max: 50 });
}
