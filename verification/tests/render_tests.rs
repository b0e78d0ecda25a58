use halfblock::cell::{pixel_to_cell_color, Color};
use halfblock::pixel::{PixelGrid, Rgba};
use halfblock::render::{canvas_height, canvas_width, render};

fn solid_grid(width: u32, height: u32, px: [u8; 4]) -> PixelGrid {
    let mut bytes = Vec::new();
    for _ in 0..width * height {
        bytes.extend_from_slice(&px);
    }
    PixelGrid::from_raw(width, height, bytes).unwrap()
}

#[test]
fn opaque_pixel_keeps_its_color() {
    let p = Rgba { r: 10, g: 20, b: 30, a: 255 };
    assert_eq!(
        pixel_to_cell_color(Some(p)),
        Some(Some(Color::Rgb { r: 10, g: 20, b: 30 }))
    );
}

#[test]
fn nearly_opaque_pixel_is_blank() {
    let p = Rgba { r: 10, g: 20, b: 30, a: 254 };
    assert_eq!(pixel_to_cell_color(Some(p)), Some(None));
}

#[test]
fn fully_transparent_pixel_is_blank() {
    let p = Rgba { r: 10, g: 20, b: 30, a: 0 };
    assert_eq!(pixel_to_cell_color(Some(p)), Some(None));
}

#[test]
fn absent_pixel_is_absent() {
    assert_eq!(pixel_to_cell_color(None), None);
}

#[test]
fn from_raw_rejects_wrong_length() {
    assert!(PixelGrid::from_raw(2, 2, vec![0u8; 15]).is_none());
    assert!(PixelGrid::from_raw(2, 2, vec![0u8; 17]).is_none());
    assert!(PixelGrid::from_raw(2, 2, vec![0u8; 12]).is_none());
}

#[test]
fn from_raw_lays_pixels_out_row_major() {
    let bytes = vec![
        1, 2, 3, 4, 5, 6, 7, 8, // row 0
        9, 10, 11, 12, 13, 14, 15, 16, // row 1
    ];
    let g = PixelGrid::from_raw(2, 2, bytes).unwrap();
    assert_eq!(g.get_pixel_checked(0, 0), Some(Rgba { r: 1, g: 2, b: 3, a: 4 }));
    assert_eq!(g.get_pixel_checked(1, 0), Some(Rgba { r: 5, g: 6, b: 7, a: 8 }));
    assert_eq!(g.get_pixel_checked(0, 1), Some(Rgba { r: 9, g: 10, b: 11, a: 12 }));
    assert_eq!(g.get_pixel_checked(1, 1), Some(Rgba { r: 13, g: 14, b: 15, a: 16 }));
    assert_eq!(g.get_pixel_checked(2, 0), None);
    assert_eq!(g.get_pixel_checked(0, 2), None);
}

#[test]
fn unpadded_buffer_is_width_by_half_height() {
    let g = solid_grid(4, 4, [1, 2, 3, 255]);
    let buf = render(&g, None);
    assert_eq!(buf.len(), 4 * 2);
}

#[test]
fn odd_height_drops_the_unpaired_row() {
    let g = solid_grid(3, 5, [1, 2, 3, 255]);
    let buf = render(&g, None);
    assert_eq!(buf.len(), 3 * 2);
}

#[test]
fn padded_buffer_uses_the_expanded_canvas() {
    let g = solid_grid(4, 4, [1, 2, 3, 255]);
    // (top, right, bottom, left): canvas (4+4+2) x (4+1+3), 8 / 2 rows.
    let buf = render(&g, Some((1, 2, 3, 4)));
    assert_eq!(buf.len(), 10 * 4);
}

#[test]
fn canvas_dimensions_add_padding() {
    assert_eq!(canvas_width(4, Some((1, 2, 3, 4))), Some(10));
    assert_eq!(canvas_height(4, Some((1, 2, 3, 4))), Some(8));
    assert_eq!(canvas_width(4, None), Some(4));
    assert_eq!(canvas_height(5, None), Some(5));
}

#[test]
fn canvas_dimensions_report_overflow() {
    assert_eq!(canvas_width(u32::MAX, Some((0, 1, 0, 0))), None);
    assert_eq!(canvas_height(u32::MAX, Some((1, 0, 0, 0))), None);
}

#[test]
fn top_padding_blanks_the_first_row_pair() {
    let g = solid_grid(4, 4, [200, 0, 0, 255]);
    let buf = render(&g, Some((2, 0, 0, 0)));
    // Canvas 4 x 6, three output rows.
    assert_eq!(buf.len(), 4 * 3);
    for x in 0..4 {
        let cell = &buf[x];
        assert_eq!(cell.upper_block, None);
        assert_eq!(cell.lower_block, None);
        assert_eq!(cell.char, Some(' '));
        assert_eq!(cell.char_color, None);
    }
    for x in 0..4 {
        let cell = &buf[4 + x];
        assert_eq!(cell.upper_block, Some(Some(Color::Rgb { r: 200, g: 0, b: 0 })));
        assert_eq!(cell.lower_block, Some(Some(Color::Rgb { r: 200, g: 0, b: 0 })));
    }
}

#[test]
fn side_padding_blanks_the_outer_columns() {
    let g = solid_grid(2, 2, [0, 50, 0, 255]);
    let buf = render(&g, Some((0, 1, 0, 1)));
    // Canvas 4 x 2, one output row: blank, image, image, blank.
    assert_eq!(buf.len(), 4);
    assert_eq!(buf[0].upper_block, None);
    assert_eq!(buf[1].upper_block, Some(Some(Color::Rgb { r: 0, g: 50, b: 0 })));
    assert_eq!(buf[2].upper_block, Some(Some(Color::Rgb { r: 0, g: 50, b: 0 })));
    assert_eq!(buf[3].upper_block, None);
}

#[test]
fn sampling_past_the_image_bottom_is_absent() {
    // Image 2 x 3 with one row of bottom padding: canvas 2 x 4, two output
    // rows.  The second row's upper half samples image row 2; its lower
    // half would sample row 3, which does not exist.
    let g = solid_grid(2, 3, [9, 9, 9, 255]);
    let buf = render(&g, Some((0, 0, 1, 0)));
    assert_eq!(buf.len(), 2 * 2);
    let cell = &buf[2];
    assert_eq!(cell.upper_block, Some(Some(Color::Rgb { r: 9, g: 9, b: 9 })));
    assert_eq!(cell.lower_block, None);
}

#[test]
fn transparent_pixels_render_present_but_blank() {
    let g = solid_grid(2, 2, [9, 9, 9, 128]);
    let buf = render(&g, None);
    assert_eq!(buf.len(), 2);
    assert_eq!(buf[0].upper_block, Some(None));
    assert_eq!(buf[0].lower_block, Some(None));
}

#[test]
fn zero_height_image_renders_nothing() {
    let g = PixelGrid::from_raw(3, 0, Vec::new()).unwrap();
    let buf = render(&g, None);
    assert_eq!(buf.len(), 0);
}
