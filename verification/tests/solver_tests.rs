use uvremap::color::Rgb;
use uvremap::locator::{find_markers, Position};
use uvremap::raster::Raster;
use uvremap::solver::{
    apply, compose, first_triangle, get_transform, is_degenerate, make_triangle, Point,
    SolveError, Triangle,
};

fn tri(v0: (i64, i64), v1: (i64, i64), v2: (i64, i64)) -> Triangle {
    Triangle {
        v0: Point { x: v0.0, y: v0.1 },
        v1: Point { x: v1.0, y: v1.1 },
        v2: Point { x: v2.0, y: v2.1 },
    }
}

#[test]
fn scale_example_doubles_x() {
    let source = tri((0, 0), (1, 0), (0, 1));
    let destination = tri((0, 0), (2, 0), (0, 1));
    let m = get_transform(&source, &destination).expect("non-degenerate");
    assert_eq!(m.den, 1);
    assert_eq!((m.a, m.b, m.tx), (2, 0, 0));
    assert_eq!((m.c, m.d, m.ty), (0, 1, 0));
    assert_eq!(apply(&m, &Point { x: 1, y: 0 }), (2, 0));
    assert_eq!(apply(&m, &Point { x: 0, y: 1 }), (0, 1));
}

#[test]
fn solved_map_is_exact_on_all_vertices() {
    let source = tri((2, 3), (11, 5), (4, 17));
    let destination = tri((-7, 1), (20, -3), (6, 40));
    let m = get_transform(&source, &destination).expect("non-degenerate");
    assert_ne!(m.den, 0);
    let pairs = [
        (source.v0, destination.v0),
        (source.v1, destination.v1),
        (source.v2, destination.v2),
    ];
    for (s, d) in pairs {
        let (x, y) = apply(&m, &s);
        assert_eq!(x, m.den * d.x as i128);
        assert_eq!(y, m.den * d.y as i128);
    }
}

#[test]
fn identical_triangles_solve_to_identity() {
    let t = tri((5, -2), (9, 4), (-3, 8));
    let m = get_transform(&t, &t).expect("non-degenerate");
    assert_ne!(m.den, 0);
    assert_eq!((m.a, m.b, m.tx), (m.den, 0, 0));
    assert_eq!((m.c, m.d, m.ty), (0, m.den, 0));
}

#[test]
fn forward_and_backward_compose_to_identity() {
    let source = tri((0, 0), (3, 1), (1, 4));
    let destination = tri((2, 5), (7, 6), (3, 9));
    let forward = get_transform(&source, &destination).expect("non-degenerate");
    let backward = get_transform(&destination, &source).expect("non-degenerate");
    let both = compose(&backward, &forward);
    assert_ne!(both.den, 0);
    assert_eq!((both.a, both.b, both.tx), (both.den, 0, 0));
    assert_eq!((both.c, both.d, both.ty), (0, both.den, 0));
}

#[test]
fn coincident_vertices_are_rejected() {
    let bad = tri((1, 1), (1, 1), (4, 5));
    let good = tri((0, 0), (1, 0), (0, 1));
    assert!(is_degenerate(&bad));
    assert_eq!(get_transform(&bad, &good), Err(SolveError::DegenerateInput));
    assert_eq!(get_transform(&good, &bad), Err(SolveError::DegenerateOutput));
}

#[test]
fn collinear_vertices_are_rejected() {
    let bad = tri((0, 0), (1, 1), (2, 2));
    let good = tri((0, 0), (1, 0), (0, 1));
    assert!(is_degenerate(&bad));
    assert!(!is_degenerate(&good));
    assert_eq!(get_transform(&bad, &good), Err(SolveError::DegenerateInput));
    assert_eq!(get_transform(&good, &bad), Err(SolveError::DegenerateOutput));
    // a degenerate input is reported before a degenerate output
    assert_eq!(get_transform(&bad, &bad), Err(SolveError::DegenerateInput));
}

#[test]
fn make_triangle_converts_positions() {
    let t = make_triangle(
        &Position { x: 1, y: 2 },
        &Position { x: 3, y: 4 },
        &Position { x: 5, y: 6 },
    );
    assert_eq!(t, tri((1, 2), (3, 4), (5, 6)));
}

#[test]
fn first_triangle_requires_three_markers() {
    let two = vec![Position { x: 0, y: 0 }, Position { x: 1, y: 0 }];
    assert_eq!(first_triangle(&two), None);
    let three = vec![
        Position { x: 0, y: 0 },
        Position { x: 1, y: 0 },
        Position { x: 0, y: 1 },
    ];
    assert_eq!(first_triangle(&three), Some(tri((0, 0), (1, 0), (0, 1))));
    let four = vec![
        Position { x: 9, y: 9 },
        Position { x: 1, y: 0 },
        Position { x: 0, y: 1 },
        Position { x: 5, y: 5 },
    ];
    assert_eq!(first_triangle(&four), Some(tri((9, 9), (1, 0), (0, 1))));
}

#[test]
fn pipeline_locates_markers_and_solves_identity() {
    let mut pixels = vec![Rgb { r: 0, g: 0, b: 0 }; 16];
    pixels[(1 * 4 + 1) as usize] = Rgb { r: 255, g: 0, b: 0 };
    pixels[(1 * 4 + 2) as usize] = Rgb { r: 0, g: 1, b: 0 };
    pixels[(2 * 4 + 1) as usize] = Rgb { r: 0, g: 0, b: 1 };
    let raster = Raster::new(4, 4, pixels).expect("buffer length matches dimensions");

    let positions = find_markers(&raster);
    let input_triangle = first_triangle(&positions).expect("three markers");
    let output_triangle = first_triangle(&positions).expect("three markers");
    assert_eq!(input_triangle, tri((1, 1), (2, 1), (1, 2)));

    let m = get_transform(&input_triangle, &output_triangle).expect("non-degenerate");
    assert_ne!(m.den, 0);
    assert_eq!((m.a, m.b, m.tx), (m.den, 0, 0));
    assert_eq!((m.c, m.d, m.ty), (0, m.den, 0));
}
