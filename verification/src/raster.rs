//! Index work on row-major rasters: cropping a cell-aligned block, pasting a tile
//! into a larger grid, and the wireframe segment list of a grid.
//!
//! A raster of `rows × cols` cells is stored row-major in a `Vec` of `rows * cols`
//! cells; cell `(r, c)` sits at `r * cols + c`. The operations are generic in the
//! cell type, so the elevation grids (floating point, kept by the application)
//! and the vertex grids share them.
use vstd::prelude::*;

verus! {

/// `x` clamped into `[0, n - 1]` (`n >= 1`).
pub open spec fn clamp_index(x: int, n: int) -> int {
    if x < 0 {
        0
    } else if x > n - 1 {
        n - 1
    } else {
        x
    }
}

/// Rows `r0 .. r0 + h` of a row-major raster with `cols` columns, each cut to the
/// `w` cells starting at column `c0`, concatenated in order.
pub open spec fn block_rows<T>(cells: Seq<T>, cols: int, r0: int, c0: int, h: nat, w: int) -> Seq<T>
    decreases h,
{
    if h == 0 {
        Seq::empty()
    } else {
        let r = r0 + h - 1;
        block_rows(cells, cols, r0, c0, (h - 1) as nat, w) + cells.subrange(r * cols + c0, r * cols + c0 + w)
    }
}

proof fn lemma_block_rows_len<T>(cells: Seq<T>, cols: int, r0: int, c0: int, h: nat, w: int)
    requires
        0 <= w,
        0 <= r0,
        0 <= c0,
        c0 + w <= cols,
        (r0 + h) * cols <= cells.len(),
    ensures
        block_rows(cells, cols, r0, c0, h, w).len() == h * w,
    decreases h,
{
    if h > 0 {
        let r = r0 + h - 1;
        lemma_row_in_grid(r, (r0 + h) as int, cols, c0, w);
        assert((r0 + h - 1) * cols <= (r0 + h) * cols) by (nonlinear_arith)
            requires
                cols >= 0,
        ;
        lemma_block_rows_len(cells, cols, r0, c0, (h - 1) as nat, w);
        let prev = block_rows(cells, cols, r0, c0, (h - 1) as nat, w);
        let row = cells.subrange(r * cols + c0, r * cols + c0 + w);
        assert(block_rows(cells, cols, r0, c0, h, w) == prev + row);
        assert(row.len() == w);
        assert(prev.len() == ((h - 1) as nat) * w);
        assert(h * w == ((h - 1) as nat) * w + w) by (nonlinear_arith)
            requires
                h >= 1,
        ;
    } else {
        assert(h * w == 0) by (nonlinear_arith)
            requires
                h == 0,
        ;
    }
}

/// A row `r < rows` of a `rows × cols` grid, cut to columns `[c0, c0 + w)` with
/// `c0 + w <= cols`, lies inside the grid's cells.
proof fn lemma_row_in_grid(r: int, rows: int, cols: int, c0: int, w: int)
    requires
        0 <= r < rows,
        0 <= c0,
        0 <= w,
        c0 + w <= cols,
    ensures
        0 <= r * cols + c0,
        r * cols + c0 + w <= rows * cols,
        r * cols + cols <= rows * cols,
{
    assert(0 <= r * cols) by (nonlinear_arith)
        requires
            0 <= r,
            0 <= c0 + w <= cols,
    ;
    assert(r * cols + cols <= rows * cols) by (nonlinear_arith)
        requires
            r + 1 <= rows,
            0 <= cols,
    ;
}

/// A cell-aligned block cut from a raster: rows `r0..=r1`, columns `c0..=c1`.
pub struct Block<T> {
    /// First row of the block in the source raster.
    pub r0: usize,
    /// Last row of the block (inclusive).
    pub r1: usize,
    /// First column of the block.
    pub c0: usize,
    /// Last column of the block (inclusive).
    pub c1: usize,
    /// The block's cells, row-major: `(r1 - r0 + 1) * (c1 - c0 + 1)` of them.
    pub cells: Vec<T>,
}

/// Cuts the block of rows `r_start..=r_end` and columns `c_start..=c_end` out of a
/// row-major `rows × cols` raster, each bound clamped into the grid first (so a
/// window reaching past an edge stops at it). The block keeps the source
/// resolution: it selects cells, it does not resample.
pub fn crop_block<T: Copy>(
    cells: &Vec<T>,
    rows: usize,
    cols: usize,
    r_start: isize,
    r_end: isize,
    c_start: isize,
    c_end: isize,
) -> (b: Block<T>)
    requires
        1 <= rows <= isize::MAX,
        1 <= cols <= isize::MAX,
        cells@.len() == rows * cols,
        r_start <= r_end,
        c_start <= c_end,
    ensures
        b.r0 == clamp_index(r_start as int, rows as int),
        b.r1 == clamp_index(r_end as int, rows as int),
        b.c0 == clamp_index(c_start as int, cols as int),
        b.c1 == clamp_index(c_end as int, cols as int),
        b.r0 <= b.r1 < rows,
        b.c0 <= b.c1 < cols,
        b.cells@.len() == (b.r1 - b.r0 + 1) * (b.c1 - b.c0 + 1),
        b.cells@ == block_rows(
            cells@,
            cols as int,
            b.r0 as int,
            b.c0 as int,
            (b.r1 - b.r0 + 1) as nat,
            b.c1 - b.c0 + 1,
        ),
{
    let last_row = rows as isize - 1;
    let last_col = cols as isize - 1;
    let r0 = if r_start < 0 { 0 } else if r_start > last_row { last_row } else { r_start } as usize;
    let r1 = if r_end < 0 { 0 } else if r_end > last_row { last_row } else { r_end } as usize;
    let c0 = if c_start < 0 { 0 } else if c_start > last_col { last_col } else { c_start } as usize;
    let c1 = if c_end < 0 { 0 } else if c_end > last_col { last_col } else { c_end } as usize;
    let ghost w = c1 - c0 + 1;
    let n = cells.len();
    let mut out: Vec<T> = Vec::new();
    let mut r = r0;
    while r <= r1
        invariant
            r0 <= r <= r1 + 1,
            r1 < rows,
            c0 <= c1 < cols,
            w == c1 - c0 + 1,
            cells@.len() == rows * cols,
            n == cells@.len(),
            out@ == block_rows(cells@, cols as int, r0 as int, c0 as int, (r - r0) as nat, w),
        decreases r1 + 1 - r,
    {
        proof {
            lemma_row_in_grid(r as int, rows as int, cols as int, c0 as int, w);
        }
        let base = r * cols;
        let ghost before = out@;
        let mut c = c0;
        while c <= c1
            invariant
                c0 <= c <= c1 + 1,
                c1 < cols,
                r < rows,
                base == r * cols,
                base + cols <= cells@.len(),
                n == cells@.len(),
                out@ == before + cells@.subrange(base + c0, base + c),
            decreases c1 + 1 - c,
        {
            out.push(cells[base + c]);
            c = c + 1;
            assert(out@ =~= before + cells@.subrange(base + c0, base + c));
        }
        r = r + 1;
        assert(out@ =~= block_rows(cells@, cols as int, r0 as int, c0 as int, (r - r0) as nat, w));
    }
    proof {
        lemma_row_in_grid(r1 as int, rows as int, cols as int, c0 as int, w);
        assert((r1 + 1) * cols == r1 * cols + cols) by (nonlinear_arith);
        lemma_block_rows_len(cells@, cols as int, r0 as int, c0 as int, (r1 - r0 + 1) as nat, w);
    }
    Block { r0, r1, c0, c1, cells: out }
}

} // verus!

verus! {

/// `s` with the cells from `pos` on overwritten by `x`.
pub open spec fn splice<T>(s: Seq<T>, pos: int, x: Seq<T>) -> Seq<T> {
    s.subrange(0, pos) + x + s.subrange(pos + x.len(), s.len() as int)
}

/// The smaller of two integers.
pub open spec fn min_int(a: int, b: int) -> int {
    if a <= b { a } else { b }
}

/// A `rows × cols` grid after pasting the first `m` rows of a tile with `t_cols`
/// columns whose north-west cell lands on grid cell `(row_off, col_off)`: tile row
/// `r` overwrites grid row `row_off + r` from column `col_off` on, cut to the grid's
/// width; tile rows that fall below the grid are dropped.
pub open spec fn pasted_rows<T>(
    grid: Seq<T>,
    rows: int,
    cols: int,
    tile: Seq<T>,
    t_cols: int,
    row_off: int,
    col_off: int,
    m: nat,
) -> Seq<T>
    decreases m,
{
    if m == 0 {
        grid
    } else {
        let prev = pasted_rows(grid, rows, cols, tile, t_cols, row_off, col_off, (m - 1) as nat);
        let r = m - 1;
        if row_off + r >= rows {
            prev
        } else {
            let n = min_int(t_cols, cols - col_off);
            splice(prev, (row_off + r) * cols + col_off, tile.subrange(r * t_cols, r * t_cols + n))
        }
    }
}

proof fn lemma_pasted_rows_len<T>(
    grid: Seq<T>,
    rows: int,
    cols: int,
    tile: Seq<T>,
    t_rows: int,
    t_cols: int,
    row_off: int,
    col_off: int,
    m: nat,
)
    requires
        grid.len() == rows * cols,
        tile.len() == t_rows * t_cols,
        0 <= rows,
        0 <= cols,
        0 <= t_cols,
        0 <= row_off,
        0 <= col_off <= cols,
        m <= t_rows,
    ensures
        pasted_rows(grid, rows, cols, tile, t_cols, row_off, col_off, m).len() == grid.len(),
    decreases m,
{
    if m > 0 {
        lemma_pasted_rows_len(grid, rows, cols, tile, t_rows, t_cols, row_off, col_off, (m - 1) as nat);
        let r = m - 1;
        if row_off + r < rows {
            let n = min_int(t_cols, cols - col_off);
            lemma_row_in_grid(row_off + r, rows, cols, col_off, n);
            lemma_row_in_grid(r, t_rows, t_cols, 0, n);
        }
    }
}

/// Pastes a `t_rows × t_cols` tile into a row-major `rows × cols` grid with the
/// tile's north-west cell on grid cell `(row_off, col_off)`. Each tile row is cut to
/// the grid's width; rows that fall below the grid are skipped.
pub fn paste_tile<T: Copy>(
    grid: &mut Vec<T>,
    rows: usize,
    cols: usize,
    tile: &Vec<T>,
    t_rows: usize,
    t_cols: usize,
    row_off: usize,
    col_off: usize,
)
    requires
        old(grid)@.len() == rows * cols,
        tile@.len() == t_rows * t_cols,
        col_off <= cols,
        row_off + t_rows <= usize::MAX,
    ensures
        final(grid)@.len() == old(grid)@.len(),
        final(grid)@ == pasted_rows(
            old(grid)@,
            rows as int,
            cols as int,
            tile@,
            t_cols as int,
            row_off as int,
            col_off as int,
            t_rows as nat,
        ),
{
    let ghost start = grid@;
    let total = grid.len();
    let tile_len = tile.len();
    let n = if t_cols < cols - col_off { t_cols } else { cols - col_off };
    let mut r: usize = 0;
    while r < t_rows
        invariant
            r <= t_rows,
            row_off + t_rows <= usize::MAX,
            col_off <= cols,
            n == min_int(t_cols as int, cols - col_off),
            start.len() == rows * cols,
            total == start.len(),
            tile@.len() == t_rows * t_cols,
            tile_len == tile@.len(),
            grid@ == pasted_rows(start, rows as int, cols as int, tile@, t_cols as int, row_off as int, col_off as int, r as nat),
        decreases t_rows - r,
    {
        proof {
            lemma_pasted_rows_len(start, rows as int, cols as int, tile@, t_rows as int, t_cols as int, row_off as int, col_off as int, r as nat);
        }
        let gr = row_off + r;
        if gr < rows {
            proof {
                lemma_row_in_grid(gr as int, rows as int, cols as int, col_off as int, n as int);
                lemma_row_in_grid(r as int, t_rows as int, t_cols as int, 0, n as int);
            }
            let dst = gr * cols + col_off;
            let src = r * t_cols;
            let ghost prev = grid@;
            let mut j: usize = 0;
            while j < n
                invariant
                    j <= n,
                    dst + n <= prev.len(),
                    src + n <= tile@.len(),
                    prev.len() == total,
                    tile@.len() == tile_len,
                    grid@ == splice(prev, dst as int, tile@.subrange(src as int, src + j)),
                decreases n - j,
            {
                grid.set(dst + j, tile[src + j]);
                j = j + 1;
                assert(grid@ =~= splice(prev, dst as int, tile@.subrange(src as int, src + j)));
            }
        }
        r = r + 1;
    }
    proof {
        lemma_pasted_rows_len(start, rows as int, cols as int, tile@, t_rows as int, t_cols as int, row_off as int, col_off as int, t_rows as nat);
    }
}

// ── wireframe ─────────────────────────────────────────────────────────────

/// The first `n` horizontal segments of grid row `r`: `(r, c)–(r, c + 1)` for
/// `c < n`, each as two consecutive cells.
pub open spec fn row_segments<T>(p: Seq<T>, cols: int, r: int, n: nat) -> Seq<T>
    decreases n,
{
    if n == 0 {
        Seq::empty()
    } else {
        row_segments(p, cols, r, (n - 1) as nat) + seq![p[r * cols + n - 1], p[r * cols + n]]
    }
}

/// The first `n` vertical segments of grid column `c`: `(r, c)–(r + 1, c)` for
/// `r < n`.
pub open spec fn column_segments<T>(p: Seq<T>, cols: int, c: int, n: nat) -> Seq<T>
    decreases n,
{
    if n == 0 {
        Seq::empty()
    } else {
        column_segments(p, cols, c, (n - 1) as nat) + seq![p[(n - 1) * cols + c], p[n * cols + c]]
    }
}

/// The horizontal segments of the first `nr` rows, row by row (west to east).
pub open spec fn all_row_segments<T>(p: Seq<T>, cols: int, nr: nat) -> Seq<T>
    decreases nr,
{
    if nr == 0 {
        Seq::empty()
    } else {
        all_row_segments(p, cols, (nr - 1) as nat) + row_segments(p, cols, nr - 1, (cols - 1) as nat)
    }
}

/// The vertical segments of the first `nc` columns, column by column (north to
/// south).
pub open spec fn all_column_segments<T>(p: Seq<T>, rows: int, cols: int, nc: nat) -> Seq<T>
    decreases nc,
{
    if nc == 0 {
        Seq::empty()
    } else {
        all_column_segments(p, rows, cols, (nc - 1) as nat) + column_segments(
            p,
            cols,
            nc - 1,
            (rows - 1) as nat,
        )
    }
}

/// The line-list of a grid's wireframe: every horizontal segment, row by row, then
/// every vertical segment, column by column.
pub open spec fn wireframe<T>(p: Seq<T>, rows: int, cols: int) -> Seq<T> {
    all_row_segments(p, cols, rows as nat) + all_column_segments(p, rows, cols, cols as nat)
}

proof fn lemma_all_row_segments_len<T>(p: Seq<T>, cols: int, k: nat)
    requires
        cols >= 1,
    ensures
        all_row_segments(p, cols, k).len() == 2 * k * (cols - 1),
    decreases k,
{
    if k > 0 {
        let k1 = (k - 1) as nat;
        lemma_all_row_segments_len(p, cols, k1);
        lemma_row_segments_len(p, cols, k - 1, (cols - 1) as nat);
        assert(all_row_segments(p, cols, k) == all_row_segments(p, cols, k1) + row_segments(
            p,
            cols,
            k - 1,
            (cols - 1) as nat,
        ));
        assert(2 * k * (cols - 1) == 2 * k1 * (cols - 1) + 2 * (cols - 1)) by (nonlinear_arith)
            requires
                k1 + 1 == k,
        ;
    } else {
        assert(2 * k * (cols - 1) == 0) by (nonlinear_arith)
            requires
                k == 0,
        ;
    }
}

proof fn lemma_all_column_segments_len<T>(p: Seq<T>, rows: int, cols: int, k: nat)
    requires
        rows >= 1,
    ensures
        all_column_segments(p, rows, cols, k).len() == 2 * k * (rows - 1),
    decreases k,
{
    if k > 0 {
        let k1 = (k - 1) as nat;
        lemma_all_column_segments_len(p, rows, cols, k1);
        lemma_column_segments_len(p, cols, k - 1, (rows - 1) as nat);
        assert(all_column_segments(p, rows, cols, k) == all_column_segments(p, rows, cols, k1)
            + column_segments(p, cols, k - 1, (rows - 1) as nat));
        assert(2 * k * (rows - 1) == 2 * k1 * (rows - 1) + 2 * (rows - 1)) by (nonlinear_arith)
            requires
                k1 + 1 == k,
        ;
    } else {
        assert(2 * k * (rows - 1) == 0) by (nonlinear_arith)
            requires
                k == 0,
        ;
    }
}

proof fn lemma_row_segments_len<T>(p: Seq<T>, cols: int, r: int, n: nat)
    ensures
        row_segments(p, cols, r, n).len() == 2 * n,
    decreases n,
{
    if n > 0 {
        lemma_row_segments_len(p, cols, r, (n - 1) as nat);
    }
}

proof fn lemma_column_segments_len<T>(p: Seq<T>, cols: int, c: int, n: nat)
    ensures
        column_segments(p, cols, c, n).len() == 2 * n,
    decreases n,
{
    if n > 0 {
        lemma_column_segments_len(p, cols, c, (n - 1) as nat);
    }
}

proof fn lemma_row_segments_index<T>(p: Seq<T>, cols: int, r: int, n: nat, k: int)
    requires
        0 <= k < n,
    ensures
        row_segments(p, cols, r, n)[2 * k] == p[r * cols + k],
        row_segments(p, cols, r, n)[2 * k + 1] == p[r * cols + k + 1],
    decreases n,
{
    lemma_row_segments_len(p, cols, r, (n - 1) as nat);
    if k < n - 1 {
        lemma_row_segments_index(p, cols, r, (n - 1) as nat, k);
    }
}

proof fn lemma_column_segments_index<T>(p: Seq<T>, cols: int, c: int, n: nat, k: int)
    requires
        0 <= k < n,
    ensures
        column_segments(p, cols, c, n)[2 * k] == p[k * cols + c],
        column_segments(p, cols, c, n)[2 * k + 1] == p[(k + 1) * cols + c],
    decreases n,
{
    lemma_column_segments_len(p, cols, c, (n - 1) as nat);
    if k < n - 1 {
        lemma_column_segments_index(p, cols, c, (n - 1) as nat, k);
    }
}

proof fn lemma_all_row_segments_index<T>(p: Seq<T>, cols: int, nr: nat, r: int, c: int)
    requires
        cols >= 1,
        0 <= r < nr,
        0 <= c < cols - 1,
    ensures
        all_row_segments(p, cols, nr)[2 * (r * (cols - 1) + c)] == p[r * cols + c],
        all_row_segments(p, cols, nr)[2 * (r * (cols - 1) + c) + 1] == p[r * cols + c + 1],
    decreases nr,
{
    let n1 = (nr - 1) as nat;
    lemma_all_row_segments_len(p, cols, n1);
    lemma_row_segments_len(p, cols, nr - 1, (cols - 1) as nat);
    if r < nr - 1 {
        lemma_all_row_segments_index(p, cols, n1, r, c);
        assert(2 * (r * (cols - 1) + c) + 1 < 2 * n1 * (cols - 1)) by (nonlinear_arith)
            requires
                r + 1 <= n1,
                0 <= c < cols - 1,
        ;
    } else {
        lemma_row_segments_index(p, cols, r, (cols - 1) as nat, c);
        assert(2 * (r * (cols - 1) + c) == 2 * n1 * (cols - 1) + 2 * c) by (nonlinear_arith)
            requires
                r == n1,
        ;
    }
}

proof fn lemma_all_column_segments_index<T>(p: Seq<T>, rows: int, cols: int, nc: nat, c: int, r: int)
    requires
        rows >= 1,
        0 <= c < nc,
        0 <= r < rows - 1,
    ensures
        all_column_segments(p, rows, cols, nc)[2 * (c * (rows - 1) + r)] == p[r * cols + c],
        all_column_segments(p, rows, cols, nc)[2 * (c * (rows - 1) + r) + 1] == p[(r + 1) * cols + c],
    decreases nc,
{
    let n1 = (nc - 1) as nat;
    lemma_all_column_segments_len(p, rows, cols, n1);
    lemma_column_segments_len(p, cols, nc - 1, (rows - 1) as nat);
    if c < nc - 1 {
        lemma_all_column_segments_index(p, rows, cols, n1, c, r);
        assert(2 * (c * (rows - 1) + r) + 1 < 2 * n1 * (rows - 1)) by (nonlinear_arith)
            requires
                c + 1 <= n1,
                0 <= r < rows - 1,
        ;
    } else {
        lemma_column_segments_index(p, cols, c, (rows - 1) as nat, r);
        assert(2 * (c * (rows - 1) + r) == 2 * n1 * (rows - 1) + 2 * r) by (nonlinear_arith)
            requires
                c == n1,
        ;
    }
}

/// Every segment of a grid's wireframe joins two grid-adjacent cells: horizontal
/// segment `(r, c)` (pair `r·(cols−1) + c`) joins cell `(r, c)` to `(r, c + 1)`, and
/// after all `rows·(cols−1)` of them, vertical segment `(c, r)` (pair
/// `rows·(cols−1) + c·(rows−1) + r`) joins cell `(r, c)` to `(r + 1, c)`.
pub proof fn law_wireframe_segments_join_neighbours<T>(p: Seq<T>, rows: int, cols: int)
    requires
        rows >= 1,
        cols >= 1,
    ensures
        wireframe(p, rows, cols).len() == 2 * (rows * (cols - 1) + cols * (rows - 1)),
        forall|r: int, c: int|
            0 <= r < rows && 0 <= c < cols - 1 ==> {
                &&& #[trigger] wireframe(p, rows, cols)[2 * (r * (cols - 1) + c)] == p[r * cols + c]
                &&& wireframe(p, rows, cols)[2 * (r * (cols - 1) + c) + 1] == p[r * cols + c + 1]
            },
        forall|c: int, r: int|
            0 <= c < cols && 0 <= r < rows - 1 ==> {
                &&& #[trigger] wireframe(p, rows, cols)[2 * (rows * (cols - 1) + c * (rows - 1) + r)] == p[r * cols + c]
                &&& wireframe(p, rows, cols)[2 * (rows * (cols - 1) + c * (rows - 1) + r) + 1] == p[(r + 1) * cols + c]
            },
{
    let w = wireframe(p, rows, cols);
    let a = all_row_segments(p, cols, rows as nat);
    lemma_all_row_segments_len(p, cols, rows as nat);
    lemma_all_column_segments_len(p, rows, cols, cols as nat);
    assert(2 * rows * (cols - 1) + 2 * cols * (rows - 1) == 2 * (rows * (cols - 1) + cols * (rows - 1))) by (nonlinear_arith);
    assert(2 * rows * (cols - 1) == 2 * (rows * (cols - 1))) by (nonlinear_arith);
    assert forall|r: int, c: int| 0 <= r < rows && 0 <= c < cols - 1 implies {
        &&& #[trigger] w[2 * (r * (cols - 1) + c)] == p[r * cols + c]
        &&& w[2 * (r * (cols - 1) + c) + 1] == p[r * cols + c + 1]
    } by {
        lemma_all_row_segments_index(p, cols, rows as nat, r, c);
        assert(2 * (r * (cols - 1) + c) + 1 < 2 * rows * (cols - 1)) by (nonlinear_arith)
            requires
                r + 1 <= rows,
                0 <= c < cols - 1,
        ;
    }
    assert forall|c: int, r: int| 0 <= c < cols && 0 <= r < rows - 1 implies {
        &&& #[trigger] w[2 * (rows * (cols - 1) + c * (rows - 1) + r)] == p[r * cols + c]
        &&& w[2 * (rows * (cols - 1) + c * (rows - 1) + r) + 1] == p[(r + 1) * cols + c]
    } by {
        lemma_all_column_segments_index(p, rows, cols, cols as nat, c, r);
        assert(2 * (c * (rows - 1) + r) + 1 < 2 * cols * (rows - 1)) by (nonlinear_arith)
            requires
                c + 1 <= cols,
                0 <= r < rows - 1,
        ;
        assert(2 * (rows * (cols - 1) + c * (rows - 1) + r) == a.len() + 2 * (c * (rows - 1) + r));
    }
}

/// Line-list vertices of a grid's wireframe: each consecutive pair is one segment.
/// Horizontal segments come first (row by row, west to east), then vertical ones
/// (column by column, north to south); there are `rows·(cols−1) + cols·(rows−1)`
/// segments.
pub fn wireframe_line_list<T: Copy>(positions: &Vec<T>, rows: usize, cols: usize) -> (v: Vec<T>)
    requires
        positions@.len() == rows * cols,
        (rows == 0) == (cols == 0),
    ensures
        v@ == wireframe(positions@, rows as int, cols as int),
        v@.len() == 2 * (rows * (cols - 1) + cols * (rows - 1)),
        forall|r: int, c: int|
            0 <= r < rows && 0 <= c < cols - 1 ==> {
                &&& #[trigger] v@[2 * (r * (cols - 1) + c)] == positions@[r * cols + c]
                &&& v@[2 * (r * (cols - 1) + c) + 1] == positions@[r * cols + c + 1]
            },
        forall|c: int, r: int|
            0 <= c < cols && 0 <= r < rows - 1 ==> {
                &&& #[trigger] v@[2 * (rows * (cols - 1) + c * (rows - 1) + r)] == positions@[r * cols + c]
                &&& v@[2 * (rows * (cols - 1) + c * (rows - 1) + r) + 1] == positions@[(r + 1) * cols + c]
            },
{
    let mut verts: Vec<T> = Vec::new();
    let plen = positions.len();
    if rows == 0 {
        assert(verts@ =~= wireframe(positions@, rows as int, cols as int));
        return verts;
    }
    let mut r: usize = 0;
    while r < rows
        invariant
            1 <= rows,
            1 <= cols,
            r <= rows,
            positions@.len() == rows * cols,
            plen == positions@.len(),
            verts@ == all_row_segments(positions@, cols as int, r as nat),
        decreases rows - r,
    {
        proof {
            lemma_row_in_grid(r as int, rows as int, cols as int, 0, cols as int);
        }
        let ghost before = verts@;
        let mut c: usize = 0;
        while c < cols - 1
            invariant
                r < rows,
                c <= cols - 1,
                r * cols + cols <= positions@.len(),
                positions@.len() == rows * cols,
                plen == positions@.len(),
                verts@ == before + row_segments(positions@, cols as int, r as int, c as nat),
            decreases cols - 1 - c,
        {
            verts.push(positions[r * cols + c]);
            verts.push(positions[r * cols + c + 1]);
            c = c + 1;
            assert(verts@ =~= before + row_segments(positions@, cols as int, r as int, c as nat));
        }
        r = r + 1;
        assert(verts@ =~= all_row_segments(positions@, cols as int, r as nat));
    }
    let ghost rows_part = verts@;
    let mut c: usize = 0;
    while c < cols
        invariant
            1 <= rows,
            1 <= cols,
            c <= cols,
            positions@.len() == rows * cols,
            plen == positions@.len(),
            verts@ == rows_part + all_column_segments(positions@, rows as int, cols as int, c as nat),
        decreases cols - c,
    {
        let ghost before = verts@;
        let mut r: usize = 0;
        while r < rows - 1
            invariant
                c < cols,
                r <= rows - 1,
                positions@.len() == rows * cols,
                plen == positions@.len(),
                verts@ == before + column_segments(positions@, cols as int, c as int, r as nat),
            decreases rows - 1 - r,
        {
            proof {
                lemma_row_in_grid(r as int + 1, rows as int, cols as int, c as int, 1);
                lemma_row_in_grid(r as int, rows as int, cols as int, c as int, 1);
            }
            verts.push(positions[r * cols + c]);
            verts.push(positions[(r + 1) * cols + c]);
            r = r + 1;
            assert(verts@ =~= before + column_segments(positions@, cols as int, c as int, r as nat));
        }
        c = c + 1;
        assert(verts@ =~= rows_part + all_column_segments(positions@, rows as int, cols as int, c as nat));
    }
    proof {
        lemma_all_row_segments_len(positions@, cols as int, rows as nat);
        lemma_all_column_segments_len(positions@, rows as int, cols as int, cols as nat);
        assert(2 * rows * (cols - 1) + 2 * cols * (rows - 1) == 2 * (rows * (cols - 1) + cols * (rows - 1))) by (nonlinear_arith);
        law_wireframe_segments_join_neighbours(positions@, rows as int, cols as int);
    }
    verts
}

} // verus!

verus! {

// ── cell-level laws ───────────────────────────────────────────────────────

/// Distinct cells of a grid row-major layout have distinct indices, and a cell
/// index determines its row: `r·cols + c == r'·cols + c'` with both columns below
/// `cols` forces `r == r'` and `c == c'`.
proof fn lemma_cell_index_unique(r: int, c: int, r2: int, c2: int, cols: int)
    requires
        0 <= r,
        0 <= r2,
        0 <= c < cols,
        0 <= c2 < cols,
        r * cols + c == r2 * cols + c2,
    ensures
        r == r2,
        c == c2,
{
    if r < r2 {
        assert(r * cols + c < r2 * cols + c2) by (nonlinear_arith)
            requires
                r < r2,
                0 <= c < cols,
                0 <= c2,
        ;
    } else if r2 < r {
        assert(r2 * cols + c2 < r * cols + c) by (nonlinear_arith)
            requires
                r2 < r,
                0 <= c2 < cols,
                0 <= c,
        ;
    }
}

/// Every cell of a cropped block is the source cell it was cut from: block cell
/// `(i, j)` is source cell `(r0 + i, c0 + j)`.
pub proof fn law_block_cell<T>(cells: Seq<T>, cols: int, r0: int, c0: int, h: nat, w: int, i: int, j: int)
    requires
        0 <= r0,
        0 <= c0,
        0 <= w,
        c0 + w <= cols,
        (r0 + h) * cols <= cells.len(),
        0 <= i < h,
        0 <= j < w,
    ensures
        0 <= i * w + j < block_rows(cells, cols, r0, c0, h, w).len(),
        block_rows(cells, cols, r0, c0, h, w)[i * w + j] == cells[(r0 + i) * cols + c0 + j],
    decreases h,
{
    let h1 = (h - 1) as nat;
    let r = r0 + h - 1;
    lemma_row_in_grid(r, r0 + h, cols, c0, w);
    assert((r0 + h1) * cols <= (r0 + h) * cols) by (nonlinear_arith)
        requires
            cols >= 0,
            h1 + 1 == h,
    ;
    lemma_block_rows_len(cells, cols, r0, c0, h1, w);
    let prev = block_rows(cells, cols, r0, c0, h1, w);
    let row = cells.subrange(r * cols + c0, r * cols + c0 + w);
    assert(block_rows(cells, cols, r0, c0, h, w) == prev + row);
    assert(i * w + j < (i + 1) * w) by (nonlinear_arith)
        requires
            j < w,
    ;
    assert(0 <= i * w) by (nonlinear_arith)
        requires
            0 <= i,
            0 <= w,
    ;
    if i < h1 {
        law_block_cell(cells, cols, r0, c0, h1, w, i, j);
        assert((i + 1) * w <= h1 * w) by (nonlinear_arith)
            requires
                i + 1 <= h1,
                0 <= w,
        ;
    } else {
        assert(i * w == h1 * w);
        assert(h * w == h1 * w + w) by (nonlinear_arith)
            requires
                h == h1 + 1,
        ;
    }
}

/// Pasting a tile writes tile cell `(gr - row_off, gc - col_off)` onto every grid
/// cell `(gr, gc)` the tile covers (inside the grid), and leaves every other grid
/// cell as it was — tiles that share a seam land on one common grid.
pub proof fn law_paste_cell<T>(
    grid: Seq<T>,
    rows: int,
    cols: int,
    tile: Seq<T>,
    t_rows: int,
    t_cols: int,
    row_off: int,
    col_off: int,
    gr: int,
    gc: int,
)
    requires
        grid.len() == rows * cols,
        tile.len() == t_rows * t_cols,
        0 <= t_rows,
        0 <= t_cols,
        0 <= row_off,
        0 <= col_off <= cols,
        0 <= gr < rows,
        0 <= gc < cols,
    ensures
        ({
            let out = pasted_rows(grid, rows, cols, tile, t_cols, row_off, col_off, t_rows as nat);
            let covered = row_off <= gr < row_off + t_rows && col_off <= gc < col_off + min_int(
                t_cols,
                cols - col_off,
            );
            &&& 0 <= gr * cols + gc < out.len()
            &&& covered ==> out[gr * cols + gc] == tile[(gr - row_off) * t_cols + (gc - col_off)]
            &&& !covered ==> out[gr * cols + gc] == grid[gr * cols + gc]
        }),
{
    lemma_paste_cell_upto(grid, rows, cols, tile, t_rows, t_cols, row_off, col_off, gr, gc, t_rows as nat);
}

/// Cutting a pasted tile's footprint back out of the grid gives back the tile, when
/// the tile fits inside the grid: a mosaic keeps every tile it was built from.
pub proof fn law_crop_recovers_pasted_tile<T>(
    grid: Seq<T>,
    rows: int,
    cols: int,
    tile: Seq<T>,
    t_rows: nat,
    t_cols: int,
    row_off: int,
    col_off: int,
)
    requires
        grid.len() == rows * cols,
        tile.len() == t_rows * t_cols,
        0 <= t_cols,
        0 <= row_off,
        0 <= col_off,
        row_off + t_rows <= rows,
        col_off + t_cols <= cols,
    ensures
        block_rows(
            pasted_rows(grid, rows, cols, tile, t_cols, row_off, col_off, t_rows),
            cols,
            row_off,
            col_off,
            t_rows,
            t_cols,
        ) == tile,
{
    let out = pasted_rows(grid, rows, cols, tile, t_cols, row_off, col_off, t_rows);
    lemma_pasted_rows_len(grid, rows, cols, tile, t_rows as int, t_cols, row_off, col_off, t_rows);
    assert((row_off + t_rows) * cols <= rows * cols) by (nonlinear_arith)
        requires
            row_off + t_rows <= rows,
            0 <= col_off + t_cols <= cols,
    ;
    lemma_block_rows_len(out, cols, row_off, col_off, t_rows, t_cols);
    let blk = block_rows(out, cols, row_off, col_off, t_rows, t_cols);
    assert forall|k: int| 0 <= k < tile.len() implies blk[k] == tile[k] by {
        assert(t_cols > 0) by (nonlinear_arith)
            requires
                0 <= k < t_rows * t_cols,
                0 <= t_cols,
        ;
        let i = k / t_cols;
        let j = k % t_cols;
        assert(k == i * t_cols + j && 0 <= j < t_cols && 0 <= i < t_rows) by (nonlinear_arith)
            requires
                0 <= k < t_rows * t_cols,
                t_cols > 0,
                i == k / t_cols,
                j == k % t_cols,
        ;
        law_block_cell(out, cols, row_off, col_off, t_rows, t_cols, i, j);
        law_paste_cell(grid, rows, cols, tile, t_rows as int, t_cols, row_off, col_off, row_off + i, col_off + j);
    }
    assert(blk =~= tile);
}

proof fn lemma_paste_cell_upto<T>(
    grid: Seq<T>,
    rows: int,
    cols: int,
    tile: Seq<T>,
    t_rows: int,
    t_cols: int,
    row_off: int,
    col_off: int,
    gr: int,
    gc: int,
    m: nat,
)
    requires
        grid.len() == rows * cols,
        tile.len() == t_rows * t_cols,
        0 <= t_rows,
        0 <= t_cols,
        0 <= row_off,
        0 <= col_off <= cols,
        0 <= gr < rows,
        0 <= gc < cols,
        m <= t_rows,
    ensures
        ({
            let out = pasted_rows(grid, rows, cols, tile, t_cols, row_off, col_off, m);
            let covered = row_off <= gr < row_off + m && col_off <= gc < col_off + min_int(
                t_cols,
                cols - col_off,
            );
            &&& out.len() == grid.len()
            &&& 0 <= gr * cols + gc < out.len()
            &&& covered ==> out[gr * cols + gc] == tile[(gr - row_off) * t_cols + (gc - col_off)]
            &&& !covered ==> out[gr * cols + gc] == grid[gr * cols + gc]
        }),
    decreases m,
{
    lemma_row_in_grid(gr, rows, cols, gc, 1);
    lemma_pasted_rows_len(grid, rows, cols, tile, t_rows, t_cols, row_off, col_off, m);
    if m > 0 {
        let m1 = (m - 1) as nat;
        lemma_paste_cell_upto(grid, rows, cols, tile, t_rows, t_cols, row_off, col_off, gr, gc, m1);
        lemma_pasted_rows_len(grid, rows, cols, tile, t_rows, t_cols, row_off, col_off, m1);
        let prev = pasted_rows(grid, rows, cols, tile, t_cols, row_off, col_off, m1);
        let r = m - 1;
        let n = min_int(t_cols, cols - col_off);
        let k = gr * cols + gc;
        if row_off + r < rows {
            let pos = (row_off + r) * cols + col_off;
            lemma_row_in_grid(row_off + r, rows, cols, col_off, n);
            lemma_row_in_grid(r, t_rows, t_cols, 0, n);
            let x = tile.subrange(r * t_cols, r * t_cols + n);
            let out = splice(prev, pos, x);
            assert(pasted_rows(grid, rows, cols, tile, t_cols, row_off, col_off, m) == out);
            if pos <= k < pos + n {
                lemma_cell_index_unique(gr, gc, row_off + r, k - (row_off + r) * cols, cols);
                assert(out[k] == x[k - pos]);
            } else {
                if gr == row_off + r {
                    assert(!(col_off <= gc < col_off + n));
                }
                assert(out[k] == prev[k]);
            }
        }
    }
}

} // verus!
