use hexcanvas::hexagon::{
    hex_pointy_canvas_tiling, tiling_fits, Hex, HexError, HexLayout, HexOrientation,
};
use hexcanvas::point::Pixel;

fn coordinates(hexes: &[Hex]) -> Vec<(i32, i32, i32)> {
    hexes.iter().map(|h| (h.q(), h.r(), h.s())).collect()
}

fn pointy(size_x: i32, size_y: i32) -> HexLayout {
    HexLayout::new(
        HexOrientation::new_layout_pointy(),
        Pixel::new(size_x, size_y),
        Pixel::new(0, 0),
    )
}

#[test]
fn cube_coordinates_that_sum_to_zero_are_accepted() {
    let hex = Hex::new(2, -5, 3).unwrap();
    assert_eq!((hex.q(), hex.r(), hex.s()), (2, -5, 3));
    assert_eq!(hex.q() + hex.r() + hex.s(), 0);
}

#[test]
fn cube_coordinates_off_the_plane_are_rejected() {
    assert_eq!(Hex::new(1, 1, 1), Err(HexError::InvalidCoordinate));
    assert_eq!(Hex::new(0, 0, 1), Err(HexError::InvalidCoordinate));
    assert_eq!(
        Hex::new(i32::MAX, i32::MAX, 2),
        Err(HexError::InvalidCoordinate)
    );
}

#[test]
fn extreme_cube_coordinates_are_accepted() {
    let hex = Hex::new(i32::MIN, i32::MAX, 1).unwrap();
    assert_eq!((hex.q(), hex.r(), hex.s()), (i32::MIN, i32::MAX, 1));
}

#[test]
fn axial_construction_derives_the_third_coordinate() {
    let hex = Hex::new_with_axial(3, 4);
    assert_eq!((hex.q(), hex.r(), hex.s()), (3, 4, -7));
    let hex = Hex::new_with_axial(-2, 1);
    assert_eq!((hex.q(), hex.r(), hex.s()), (-2, 1, 1));
    let hex = Hex::new_with_axial(i32::MIN, 1);
    assert_eq!((hex.q(), hex.r(), hex.s()), (i32::MIN, 1, i32::MAX));
}

#[test]
fn orientation_presets_differ() {
    assert_eq!(HexOrientation::new_layout_pointy(), HexOrientation::PointyTop);
    assert_eq!(HexOrientation::new_layout_flat(), HexOrientation::FlatTop);
    assert_ne!(
        HexOrientation::new_layout_pointy(),
        HexOrientation::new_layout_flat()
    );
}

#[test]
fn layout_keeps_its_parts() {
    let layout = HexLayout::new(
        HexOrientation::new_layout_flat(),
        Pixel::new(7, 9),
        Pixel::new(-1, 4),
    );
    assert_eq!(layout.orientation, HexOrientation::FlatTop);
    assert_eq!((layout.size.x, layout.size.y), (7, 9));
    assert_eq!((layout.origin.x, layout.origin.y), (-1, 4));
}

#[test]
fn tiling_of_an_empty_canvas_is_one_hexagon() {
    let layout = pointy(10, 10);
    assert!(tiling_fits(0, 0, &layout));
    let tiling = hex_pointy_canvas_tiling(0, 0, &layout);
    assert_eq!(coordinates(&tiling), vec![(0, 0, 0)]);
}

#[test]
fn tiling_of_twenty_by_twenty() {
    let layout = pointy(10, 10);
    let tiling = hex_pointy_canvas_tiling(20, 20, &layout);
    assert_eq!(tiling.len(), 9);
    assert_eq!(
        coordinates(&tiling),
        vec![
            (0, 0, 0),
            (1, 0, -1),
            (2, 0, -2),
            (0, 1, -1),
            (1, 1, -2),
            (2, 1, -3),
            (-1, 2, -1),
            (0, 2, -2),
            (1, 2, -3),
        ]
    );
}

#[test]
fn tiling_rounds_partial_hexagons_up() {
    // rows: ceil(21 / 10) = 3, columns: ceil(5 / 4) = 2
    let layout = pointy(10, 4);
    let tiling = hex_pointy_canvas_tiling(5, 21, &layout);
    assert_eq!(tiling.len(), 4 * 3);
    assert_eq!(
        coordinates(&tiling[9..]),
        vec![(-1, 3, -2), (0, 3, -3), (1, 3, -4)]
    );
}

#[test]
fn tiling_crosses_height_with_the_first_size_axis() {
    // rows come from height / size.x, columns from width / size.y
    let layout = pointy(1, 8);
    let tiling = hex_pointy_canvas_tiling(8, 2, &layout);
    assert_eq!(
        coordinates(&tiling),
        vec![
            (0, 0, 0),
            (1, 0, -1),
            (0, 1, -1),
            (1, 1, -2),
            (-1, 2, -1),
            (0, 2, -2),
        ]
    );
}

#[test]
fn tiling_is_deterministic() {
    let layout = pointy(3, 5);
    let first = hex_pointy_canvas_tiling(17, 11, &layout);
    let second = hex_pointy_canvas_tiling(17, 11, &layout);
    assert_eq!(coordinates(&first), coordinates(&second));
}

#[test]
fn tiling_with_a_zero_size_is_empty() {
    assert!(hex_pointy_canvas_tiling(20, 20, &pointy(0, 10)).is_empty());
    assert!(hex_pointy_canvas_tiling(20, 20, &pointy(10, 0)).is_empty());
    assert!(hex_pointy_canvas_tiling(0, 0, &pointy(0, 0)).is_empty());
}

#[test]
fn tiling_with_a_negative_size() {
    // ceil(20 / -10) = -2: no row at all
    assert!(hex_pointy_canvas_tiling(20, 20, &pointy(-10, 10)).is_empty());
    // ceil(0 / -10) = 0: row 0, and ceil(20 / -10) = -2 leaves it empty
    assert!(hex_pointy_canvas_tiling(20, 0, &pointy(-10, -10)).is_empty());
    let tiling = hex_pointy_canvas_tiling(0, 0, &pointy(-10, -10));
    assert_eq!(coordinates(&tiling), vec![(0, 0, 0)]);
}

#[test]
fn tiling_that_leaves_the_coordinate_range_is_reported() {
    assert!(!tiling_fits(u32::MAX, 1, &pointy(1, 1)));
    assert!(!tiling_fits(1, u32::MAX, &pointy(1, 1)));
    assert!(tiling_fits(u32::MAX, u32::MAX, &pointy(0, 1)));
    assert!(tiling_fits(1000, 1000, &pointy(1, 1)));
}
