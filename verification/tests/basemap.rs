use atldp::basemap::{
    blank_canvas, composite_tile, decode_tile, tile_window, RgbaTile, TileWindow, MAX_TILES, TILE_PX,
};

#[test]
fn tile_window_orders_and_clamps() {
    let w = tile_window(5, 3, 9, 7, 4).unwrap();
    assert_eq!(
        w,
        TileWindow { x0: 3, x1: 5, y0: 7, y1: 9, cols: 3, rows: 3, width: 3 * TILE_PX, height: 3 * TILE_PX }
    );
    // Clamped to the 0..=15 grid of zoom 4.
    let w = tile_window(-2, 20, 14, 40, 4).unwrap();
    assert_eq!((w.x0, w.x1, w.y0, w.y1), (0, 15, 14, 15));
    assert_eq!((w.cols, w.rows), (16, 2));
}

#[test]
fn tile_window_caps_tile_count() {
    assert!(tile_window(0, 7, 0, 7, 10).is_some());
    assert_eq!(8 * 8, MAX_TILES);
    assert!(tile_window(0, 8, 0, 7, 10).is_none());
    assert!(tile_window(0, 100, 0, 0, 10).is_none());
}

#[test]
fn blank_canvas_is_opaque_grey() {
    let c = blank_canvas(2, 3);
    assert_eq!(c.len(), 24);
    for px in c.chunks_exact(4) {
        assert_eq!(px, &[60, 60, 60, 255]);
    }
    assert!(blank_canvas(0, 5).is_empty());
}

#[test]
fn tile_window_at_lowest_zoom_is_one_tile() {
    // Zoom 0 has a single tile; any corners clamp onto it.
    let w = tile_window(-3, 4, 2, -1, 0).unwrap();
    assert_eq!((w.x0, w.x1, w.y0, w.y1, w.cols, w.rows), (0, 0, 0, 0, 1, 1));
    assert_eq!((w.width, w.height), (TILE_PX, TILE_PX));
}

fn png_bytes(width: u32, height: u32, rgba: Vec<u8>) -> Vec<u8> {
    let img = image::RgbaImage::from_raw(width, height, rgba).unwrap();
    let mut out = std::io::Cursor::new(Vec::new());
    img.write_to(&mut out, image::ImageFormat::Png).unwrap();
    out.into_inner()
}

#[test]
fn decode_tile_reads_png_pixels() {
    let px: Vec<u8> = (0..16).collect();
    let tile = decode_tile(&png_bytes(2, 2, px.clone())).expect("decodes");
    assert_eq!((tile.width, tile.height), (2, 2));
    assert_eq!(tile.pixels, px);
}

#[test]
fn decode_tile_rejects_non_image_bytes() {
    assert!(decode_tile(b"not an image").is_none());
    assert!(decode_tile(&[]).is_none());
}

#[test]
fn composite_tile_copies_rows_into_canvas() {
    // A 2×1 tile at pixel (1, 1) of a 3×2 canvas.
    let tile = RgbaTile { width: 2, height: 1, pixels: vec![1, 2, 3, 4, 5, 6, 7, 8] };
    let mut canvas = blank_canvas(3, 2);
    composite_tile(&mut canvas, 3, &tile, 1, 1);
    let grey = [60u8, 60, 60, 255];
    assert_eq!(&canvas[0..12], &[grey, grey, grey].concat()[..]);
    assert_eq!(&canvas[12..16], &grey);
    assert_eq!(&canvas[16..24], &[1, 2, 3, 4, 5, 6, 7, 8]);
}

#[test]
fn composite_tile_wider_than_the_row_continues_on_the_next() {
    // A 2×1 tile at pixel (2, 0) of a 3×2 canvas: its second pixel lands on (0, 1).
    let tile = RgbaTile { width: 2, height: 1, pixels: vec![1, 2, 3, 4, 5, 6, 7, 8] };
    let mut canvas = blank_canvas(3, 2);
    composite_tile(&mut canvas, 3, &tile, 2, 0);
    let grey = [60u8, 60, 60, 255];
    assert_eq!(&canvas[0..8], &[grey, grey].concat()[..]);
    assert_eq!(&canvas[8..16], &[1, 2, 3, 4, 5, 6, 7, 8]);
    assert_eq!(&canvas[16..24], &[grey, grey].concat()[..]);
    assert_eq!(canvas.len(), 24);
}
