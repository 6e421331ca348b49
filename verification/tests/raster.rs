use atldp::raster::{crop_block, paste_tile, wireframe_line_list};

/// A 3×3 grid, row-major north to south: 0,1,2 / 3,4,5 / 6,7,8.
fn grid3() -> Vec<i32> {
    (0..9).collect()
}

#[test]
fn crop_selects_cell_aligned_subblock() {
    // The window's cell range is rows 1..=2, cols 1..=2 (the SE 2×2 block).
    let b = crop_block(&grid3(), 3, 3, 1, 2, 1, 2);
    assert_eq!((b.r0, b.r1, b.c0, b.c1), (1, 2, 1, 2));
    assert_eq!(b.cells, vec![4, 5, 7, 8]);
}

#[test]
fn crop_block_clamps_to_grid() {
    let b = crop_block(&grid3(), 3, 3, -4, 10, -1, 0);
    assert_eq!((b.r0, b.r1, b.c0, b.c1), (0, 2, 0, 0));
    assert_eq!(b.cells, vec![0, 3, 6]);
    let b = crop_block(&grid3(), 3, 3, 5, 9, 5, 9);
    assert_eq!((b.r0, b.r1, b.c0, b.c1), (2, 2, 2, 2));
    assert_eq!(b.cells, vec![8]);
}

#[test]
fn crop_block_whole_grid_is_identity() {
    let b = crop_block(&grid3(), 3, 3, 0, 2, 0, 2);
    assert_eq!(b.cells, grid3());
}

#[test]
fn mosaic_stitches_adjacent_tiles_along_shared_seam() {
    // Two 3×3 tiles sharing a seam column land on a 3×5 grid at col 0 and col 2.
    let a = vec![0, 1, 2, 3, 4, 5, 6, 7, 8];
    let b = vec![2, 30, 40, 5, 60, 70, 8, 90, 100];
    let mut grid = vec![-1; 15];
    paste_tile(&mut grid, 3, 5, &a, 3, 3, 0, 0);
    paste_tile(&mut grid, 3, 5, &b, 3, 3, 0, 2);
    assert_eq!(&grid[0..5], &[0, 1, 2, 30, 40]);
    assert_eq!(&grid[5..10], &[3, 4, 5, 60, 70]);
    assert_eq!(&grid[10..15], &[6, 7, 8, 90, 100]);
}

#[test]
fn paste_clips_to_grid_and_leaves_gaps() {
    let tile = vec![1, 2, 3, 4];
    let mut grid = vec![0; 9];
    // Tile's lower row and right column fall outside the 3×3 grid.
    paste_tile(&mut grid, 3, 3, &tile, 2, 2, 2, 2);
    assert_eq!(grid, vec![0, 0, 0, 0, 0, 0, 0, 0, 1]);
    let mut grid = vec![0; 9];
    paste_tile(&mut grid, 3, 3, &tile, 2, 2, 3, 0);
    assert_eq!(grid, vec![0; 9]);
    let mut grid = vec![0; 9];
    paste_tile(&mut grid, 3, 3, &tile, 2, 2, 0, 3);
    assert_eq!(grid, vec![0; 9]);
}

#[test]
fn wireframe_line_list_count() {
    let positions: Vec<(usize, usize)> = (0..8).flat_map(|r| (0..8).map(move |c| (r, c))).collect();
    let verts = wireframe_line_list(&positions, 8, 8);
    assert_eq!(verts.len(), 2 * (8 * 7 + 8 * 7));
}

#[test]
fn wireframe_segment_order() {
    // 2×3 grid: cells (r, c).
    let positions: Vec<(u8, u8)> = vec![(0, 0), (0, 1), (0, 2), (1, 0), (1, 1), (1, 2)];
    let verts = wireframe_line_list(&positions, 2, 3);
    assert_eq!(
        verts,
        vec![
            // rows, west to east
            (0, 0), (0, 1), (0, 1), (0, 2),
            (1, 0), (1, 1), (1, 1), (1, 2),
            // columns, north to south
            (0, 0), (1, 0),
            (0, 1), (1, 1),
            (0, 2), (1, 2),
        ]
    );
    assert_eq!(verts.len(), 2 * (2 * 2 + 3 * 1));
}

#[test]
fn wireframe_of_single_cell_and_empty_grid() {
    assert!(wireframe_line_list(&vec![7], 1, 1).is_empty());
    assert!(wireframe_line_list(&Vec::<i32>::new(), 0, 0).is_empty());
}

#[test]
fn crop_of_pasted_footprint_gives_back_the_tile() {
    let tile = vec![1, 2, 3, 4, 5, 6];
    let mut grid = vec![0; 20];
    // A 2×3 tile pasted at (1, 2) of a 4×5 grid, then its footprint cut back out.
    paste_tile(&mut grid, 4, 5, &tile, 2, 3, 1, 2);
    let b = crop_block(&grid, 4, 5, 1, 2, 2, 4);
    assert_eq!(b.cells, tile);
}
