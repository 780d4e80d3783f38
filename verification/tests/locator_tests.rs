use uvremap::color::{get_precedence, Rgb};
use uvremap::locator::{find_markers, Position};
use uvremap::raster::Raster;

fn black() -> Rgb {
    Rgb { r: 0, g: 0, b: 0 }
}

fn make_raster(width: u32, height: u32, marks: &[(u32, u32, Rgb)]) -> Raster {
    let mut pixels = vec![black(); (width * height) as usize];
    for &(x, y, c) in marks {
        pixels[(y * width + x) as usize] = c;
    }
    Raster::new(width, height, pixels).expect("buffer length matches dimensions")
}

#[test]
fn precedence_reads_channels_little_endian() {
    assert_eq!(get_precedence(&Rgb { r: 255, g: 0, b: 0 }), 255);
    assert_eq!(get_precedence(&Rgb { r: 0, g: 1, b: 0 }), 256);
    assert_eq!(get_precedence(&Rgb { r: 0, g: 0, b: 1 }), 65536);
    assert_eq!(get_precedence(&Rgb { r: 255, g: 255, b: 255 }), 16777215);
    assert_eq!(get_precedence(&Rgb { r: 1, g: 2, b: 3 }), 1 + 2 * 256 + 3 * 65536);
}

#[test]
fn example_three_markers_ordered_by_precedence() {
    let raster = make_raster(
        4,
        4,
        &[
            (1, 1, Rgb { r: 255, g: 0, b: 0 }),
            (2, 1, Rgb { r: 0, g: 1, b: 0 }),
            (1, 2, Rgb { r: 0, g: 0, b: 1 }),
        ],
    );
    let positions = find_markers(&raster);
    assert_eq!(
        positions,
        vec![
            Position { x: 1, y: 1 },
            Position { x: 2, y: 1 },
            Position { x: 1, y: 2 },
        ]
    );
}

#[test]
fn locator_is_deterministic() {
    let marks = [
        (0, 0, Rgb { r: 9, g: 4, b: 2 }),
        (3, 2, Rgb { r: 1, g: 0, b: 0 }),
        (2, 3, Rgb { r: 1, g: 0, b: 0 }),
        (1, 1, Rgb { r: 0, g: 0, b: 200 }),
    ];
    let first = find_markers(&make_raster(5, 4, &marks));
    let second = find_markers(&make_raster(5, 4, &marks));
    assert_eq!(first, second);
}

#[test]
fn locator_returns_one_position_per_marker() {
    let marks = [
        (0, 0, Rgb { r: 1, g: 1, b: 1 }),
        (4, 0, Rgb { r: 2, g: 0, b: 0 }),
        (2, 2, Rgb { r: 0, g: 3, b: 0 }),
        (1, 3, Rgb { r: 0, g: 0, b: 4 }),
        (3, 1, Rgb { r: 5, g: 5, b: 0 }),
    ];
    assert_eq!(find_markers(&make_raster(5, 4, &marks)).len(), 5);
    assert_eq!(find_markers(&make_raster(5, 4, &[])).len(), 0);
}

#[test]
fn locator_orders_by_ascending_precedence() {
    // discovery order (column-major) is the reverse of the key order
    let marks = [
        (0, 0, Rgb { r: 0, g: 0, b: 9 }),
        (1, 0, Rgb { r: 0, g: 9, b: 0 }),
        (2, 0, Rgb { r: 9, g: 0, b: 0 }),
    ];
    let positions = find_markers(&make_raster(3, 1, &marks));
    assert_eq!(
        positions,
        vec![
            Position { x: 2, y: 0 },
            Position { x: 1, y: 0 },
            Position { x: 0, y: 0 },
        ]
    );
}

#[test]
fn equal_colors_keep_discovery_order() {
    let c = Rgb { r: 7, g: 7, b: 7 };
    // column-major scan discovers (0,2), (1,0), (2,1) in that order
    let marks = [(1, 0, c), (2, 1, c), (0, 2, c)];
    let positions = find_markers(&make_raster(3, 3, &marks));
    assert_eq!(
        positions,
        vec![
            Position { x: 0, y: 2 },
            Position { x: 1, y: 0 },
            Position { x: 2, y: 1 },
        ]
    );
}

#[test]
fn raster_new_rejects_wrong_buffer_length() {
    assert!(Raster::new(2, 2, vec![black(); 3]).is_none());
    assert!(Raster::new(2, 2, vec![black(); 4]).is_some());
    assert!(Raster::new(0, 5, Vec::new()).is_some());
}
