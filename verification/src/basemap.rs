//! Integer work of the raster basemap: which slippy-map tiles cover a window, the
//! blank RGBA canvas they are composited onto, decoding a tile image and copying
//! it into the canvas.
//!
//! Fetching and caching the tiles is network and file I/O and stays in the
//! application. Where a tile fits the canvas, copying it is the raster paste of
//! [`crate::raster::paste_tile`] ([`law_composite_is_paste_when_fits`]).
use vstd::prelude::*;
use crate::raster::{min_int, pasted_rows, splice};
use vstd::arithmetic::power2::{lemma2_to64, lemma_pow2_pos, lemma_pow2_strictly_increases, pow2};
use vstd::bits::lemma_u64_shl_is_mul;

verus! {

/// Edge length of one map tile, pixels.
pub const TILE_PX: u32 = 256;

/// Safety cap on the tiles composited for one window.
pub const MAX_TILES: u32 = 64;

/// Grey level of canvas pixels that no tile covers.
pub const MISSING_GREY: u8 = 60;

/// `v` clamped into `[lo, hi]`.
pub open spec fn clamp_between(v: int, lo: int, hi: int) -> int {
    if v < lo {
        lo
    } else if v > hi {
        hi
    } else {
        v
    }
}

/// The tile grid rectangle of a window: tile columns `x0..=x1`, tile rows `y0..=y1`,
/// and the pixel size of the composite.
#[derive(Debug, Clone, Copy, PartialEq, Eq, Structural)]
pub struct TileWindow {
    /// Westmost tile column.
    pub x0: i64,
    /// Eastmost tile column.
    pub x1: i64,
    /// Northmost tile row.
    pub y0: i64,
    /// Southmost tile row.
    pub y1: i64,
    /// Number of tile columns.
    pub cols: u32,
    /// Number of tile rows.
    pub rows: u32,
    /// Composite width, pixels.
    pub width: u32,
    /// Composite height, pixels.
    pub height: u32,
}

/// Largest tile index at zoom `z`: `2^z - 1`.
pub open spec fn max_tile_index(z: u32) -> int {
    pow2(z as nat) - 1
}

/// The tile range `(first, last)` spanned by corner tiles `a` and `b` on one axis at
/// zoom `z`, clamped to the zoom's grid.
pub open spec fn axis_range(a: i64, b: i64, z: u32) -> (int, int) {
    let n = max_tile_index(z);
    (
        clamp_between(if a <= b { a as int } else { b as int }, 0, n),
        clamp_between(if a <= b { b as int } else { a as int }, 0, n),
    )
}

/// On each axis the tile range keeps the spanned corners when they lie on the zoom's
/// `2^z`-tile grid (first the smaller, then the larger), always stays on that grid,
/// and ends on the last tile `2^z − 1` when a corner lies past it.
pub proof fn law_axis_range_on_grid(a: i64, b: i64, z: u32)
    requires
        z <= 17,
    ensures
        0 <= axis_range(a, b, z).0 <= axis_range(a, b, z).1 < pow2(z as nat),
        (0 <= a < pow2(z as nat) && 0 <= b < pow2(z as nat)) ==> axis_range(a, b, z) == (
            if a <= b { a as int } else { b as int },
            if a <= b { b as int } else { a as int },
        ),
        (a >= pow2(z as nat) || b >= pow2(z as nat)) ==> axis_range(a, b, z).1 == pow2(z as nat) - 1,
{
    lemma_pow2_pos(z as nat);
}

/// The tiles covering a window whose corners fall in tiles `xa`/`xb` (columns) and
/// `ya`/`yb` (rows) at zoom `z`: the spanned range of each axis, clamped to the
/// zoom's grid; `None` when that is more than [`MAX_TILES`] tiles.
pub fn tile_window(xa: i64, xb: i64, ya: i64, yb: i64, z: u32) -> (r: Option<TileWindow>)
    requires
        z <= 17,
        (axis_range(xa, xb, z).1 - axis_range(xa, xb, z).0 + 1) * (axis_range(ya, yb, z).1
            - axis_range(ya, yb, z).0 + 1) <= u32::MAX,
    ensures
        r matches Some(w) ==> 0 <= w.x0 <= w.x1 < pow2(z as nat) && 0 <= w.y0 <= w.y1 < pow2(z as nat),
        (0 <= xa < pow2(z as nat) && 0 <= xb < pow2(z as nat)) ==> (r matches Some(w) ==> w.x0 == (if xa
            <= xb { xa } else { xb }) && w.x1 == (if xa <= xb { xb } else { xa })),
        (0 <= ya < pow2(z as nat) && 0 <= yb < pow2(z as nat)) ==> (r matches Some(w) ==> w.y0 == (if ya
            <= yb { ya } else { yb }) && w.y1 == (if ya <= yb { yb } else { ya })),
        ({
            let (x0, x1) = axis_range(xa, xb, z);
            let (y0, y1) = axis_range(ya, yb, z);
            &&& (x1 - x0 + 1) * (y1 - y0 + 1) > MAX_TILES ==> r is None
            &&& (x1 - x0 + 1) * (y1 - y0 + 1) <= MAX_TILES ==> r == Some(
                TileWindow {
                    x0: x0 as i64,
                    x1: x1 as i64,
                    y0: y0 as i64,
                    y1: y1 as i64,
                    cols: (x1 - x0 + 1) as u32,
                    rows: (y1 - y0 + 1) as u32,
                    width: ((x1 - x0 + 1) * TILE_PX) as u32,
                    height: ((y1 - y0 + 1) * TILE_PX) as u32,
                },
            )
        }),
{
    proof {
        law_axis_range_on_grid(xa, xb, z);
        law_axis_range_on_grid(ya, yb, z);
        lemma_pow2_pos(z as nat);
        lemma2_to64();
        if z < 18 {
            lemma_pow2_strictly_increases(z as nat, 18);
        }
        assert(pow2(18) == 262144);
        lemma_u64_shl_is_mul(1, z as u64);
    }
    let nmax = (1u64 << z as u64) as i64 - 1;
    let xlo = if xa <= xb { xa } else { xb };
    let xhi = if xa <= xb { xb } else { xa };
    let ylo = if ya <= yb { ya } else { yb };
    let yhi = if ya <= yb { yb } else { ya };
    let x0 = if xlo < 0 { 0 } else if xlo > nmax { nmax } else { xlo };
    let x1 = if xhi < 0 { 0 } else if xhi > nmax { nmax } else { xhi };
    let y0 = if ylo < 0 { 0 } else if ylo > nmax { nmax } else { ylo };
    let y1 = if yhi < 0 { 0 } else if yhi > nmax { nmax } else { yhi };
    let cols = (x1 - x0 + 1) as u32;
    let rows = (y1 - y0 + 1) as u32;
    if cols == 0 || rows == 0 || cols * rows > MAX_TILES {
        return None;
    }
    assert(cols * rows <= 64 ==> cols <= 64 && rows <= 64) by (nonlinear_arith)
        requires
            cols >= 1,
            rows >= 1,
    ;
    Some(TileWindow { x0, x1, y0, y1, cols, rows, width: cols * TILE_PX, height: rows * TILE_PX })
}

/// An opaque grey RGBA canvas of `width × height` pixels: every pixel is
/// `(60, 60, 60, 255)`.
pub fn blank_canvas(width: u32, height: u32) -> (v: Vec<u8>)
    requires
        width * height * 4 <= usize::MAX,
    ensures
        v@.len() == width * height * 4,
        forall|i: int|
            0 <= i < v@.len() ==> #[trigger] v@[i] == (if i % 4 == 3 { 255u8 } else { MISSING_GREY }),
{
    let n = (width as usize) * (height as usize) * 4;
    let mut v: Vec<u8> = Vec::with_capacity(n);
    let mut i: usize = 0;
    while i < n
        invariant
            n == width * height * 4,
            i <= n,
            v@.len() == i,
            forall|k: int| 0 <= k < i ==> #[trigger] v@[k] == (if k % 4 == 3 { 255u8 } else { MISSING_GREY }),
        decreases n - i,
    {
        if i % 4 == 3 {
            v.push(255);
        } else {
            v.push(MISSING_GREY);
        }
        i = i + 1;
    }
    v
}

/// What `image::load_from_memory` followed by `to_rgba8` makes of an encoded image:
/// its width, height and RGBA8 buffer, or `None` when the bytes do not decode.
pub uninterp spec fn decoded_rgba(bytes: Seq<u8>) -> Option<(u32, u32, Seq<u8>)>;

/// Decodes an encoded image (`image::load_from_memory`, which guesses the format
/// from the bytes) and converts it to RGBA8 (`to_rgba8`). The result is
/// [`decoded_rgba`] of the bytes; nothing is stated of the buffer's length, which the
/// caller checks.
#[verifier::external_body]
fn decode_rgba8(bytes: &[u8]) -> (r: Option<(u32, u32, Vec<u8>)>)
    ensures
        match r {
            Some(t) => decoded_rgba(bytes@) == Some((t.0, t.1, t.2@)),
            None => decoded_rgba(bytes@) is None,
        },
{
    match image::load_from_memory(bytes) {
        Ok(img) => {
            let rgba = img.to_rgba8();
            Some((rgba.width(), rgba.height(), rgba.into_raw()))
        },
        Err(_) => None,
    }
}

/// A decoded map tile: `width × height` RGBA8 pixels, row-major.
pub struct RgbaTile {
    /// Width, pixels.
    pub width: u32,
    /// Height, pixels.
    pub height: u32,
    /// `width * height * 4` bytes, four per pixel.
    pub pixels: Vec<u8>,
}

/// The tile an encoded image decodes to: its size and the first `width·height·4`
/// bytes of its RGBA8 buffer, or `None` when it does not decode or the buffer is
/// shorter than that.
pub open spec fn tile_of(bytes: Seq<u8>) -> Option<(u32, u32, Seq<u8>)> {
    match decoded_rgba(bytes) {
        Some((w, h, px)) => if w * h * 4 <= px.len() {
            Some((w, h, px.take(w * h * 4)))
        } else {
            None
        },
        None => None,
    }
}

/// Decodes a downloaded or cached map tile into RGBA8 pixels; `None` when the bytes
/// are not an image this build reads.
pub fn decode_tile(bytes: &[u8]) -> (r: Option<RgbaTile>)
    ensures
        match tile_of(bytes@) {
            Some((w, h, px)) => r matches Some(t) && t.width == w && t.height == h && t.pixels@ == px,
            None => r is None,
        },
        r matches Some(t) ==> t.pixels@.len() == t.width * t.height * 4,
{
    match decode_rgba8(bytes) {
        Some((w, h, px)) => {
            assert((w as int) * (h as int) * 4 <= 4 * 0xffff_ffff * 0xffff_ffff) by (nonlinear_arith)
                requires
                    w <= 0xffff_ffff,
                    h <= 0xffff_ffff,
            ;
            let need: u128 = (w as u128) * (h as u128) * 4;
            if need <= px.len() as u128 {
                let mut px = px;
                px.truncate(need as usize);
                Some(RgbaTile { width: w, height: h, pixels: px })
            } else {
                None
            }
        },
        None => None,
    }
}

/// The canvas after copying the first `m` rows of a tile `tw` pixels wide into an
/// RGBA8 canvas `width` pixels wide, top-left pixel at `(ox, oy)`: tile row `r`
/// overwrites the `4 · tw` bytes from pixel `(ox, oy + r)` on, continuing into the
/// next canvas row where the tile is wider than what is left of the row.
pub open spec fn blitted(canvas: Seq<u8>, width: int, tile: Seq<u8>, tw: int, ox: int, oy: int, m: nat) -> Seq<u8>
    decreases m,
{
    if m == 0 {
        canvas
    } else {
        let r = m - 1;
        splice(
            blitted(canvas, width, tile, tw, ox, oy, (m - 1) as nat),
            ((oy + r) * width + ox) * 4,
            tile.subrange(r * tw * 4, r * tw * 4 + tw * 4),
        )
    }
}

/// The byte ranges of tile row `r < th` lie inside the canvas and inside the tile.
proof fn lemma_blit_row_bounds(width: int, tw: int, th: int, ox: int, oy: int, r: int, len: int, plen: int)
    requires
        0 <= width,
        0 <= tw,
        0 <= ox,
        0 <= oy,
        0 <= r < th,
        ((oy + th - 1) * width + ox + tw) * 4 <= len,
        plen == tw * th * 4,
    ensures
        0 <= (oy + r) * width,
        0 <= ((oy + r) * width + ox) * 4,
        ((oy + r) * width + ox) * 4 + tw * 4 <= len,
        0 <= r * tw * 4,
        r * tw * 4 + tw * 4 <= plen,
        tw * 4 <= plen,
{
    assert(0 <= (oy + r) * width) by (nonlinear_arith)
        requires
            0 <= oy + r,
            0 <= width,
    ;
    assert((oy + r) * width <= (oy + th - 1) * width) by (nonlinear_arith)
        requires
            r <= th - 1,
            0 <= width,
    ;
    assert(0 <= r * tw * 4 && r * tw * 4 + tw * 4 <= tw * th * 4 && tw * 4 <= tw * th * 4) by (nonlinear_arith)
        requires
            0 <= r < th,
            0 <= tw,
    ;
}

proof fn lemma_blitted_len(canvas: Seq<u8>, width: int, tile: Seq<u8>, tw: int, th: int, ox: int, oy: int, m: nat)
    requires
        0 <= width,
        0 <= tw,
        0 <= ox,
        0 <= oy,
        m <= th,
        tile.len() == tw * th * 4,
        ((oy + th - 1) * width + ox + tw) * 4 <= canvas.len(),
    ensures
        blitted(canvas, width, tile, tw, ox, oy, m).len() == canvas.len(),
    decreases m,
{
    if m > 0 {
        lemma_blitted_len(canvas, width, tile, tw, th, ox, oy, (m - 1) as nat);
        lemma_blit_row_bounds(width, tw, th, ox, oy, m - 1, canvas.len() as int, tile.len() as int);
    }
}

/// Copies a tile into an RGBA8 canvas `width` pixels wide with its top-left pixel
/// at `(ox, oy)`: each tile row overwrites `4 · tile.width` bytes starting at pixel
/// `(ox, oy + r)` (a tile wider than the rest of the row continues into the next
/// one). Every tile row must end inside the canvas.
pub fn composite_tile(canvas: &mut Vec<u8>, width: u32, tile: &RgbaTile, ox: u32, oy: u32)
    requires
        tile.pixels@.len() == tile.width * tile.height * 4,
        tile.height == 0 || ((oy + tile.height - 1) * width + ox + tile.width) * 4 <= old(canvas)@.len(),
    ensures
        final(canvas)@.len() == old(canvas)@.len(),
        final(canvas)@ == blitted(
            old(canvas)@,
            width as int,
            tile.pixels@,
            tile.width as int,
            ox as int,
            oy as int,
            tile.height as nat,
        ),
{
    let ghost start = canvas@;
    let ghost tw_i = tile.width as int;
    let ghost th_i = tile.height as int;
    let len = canvas.len();
    let plen = tile.pixels.len();
    let th = tile.height as usize;
    let mut r: usize = 0;
    while r < th
        invariant
            r <= th,
            th == tile.height,
            th_i == tile.height,
            tw_i == tile.width,
            plen == tile.pixels@.len(),
            plen == tw_i * th_i * 4,
            start.len() == len,
            th > 0 ==> ((oy + th - 1) * width + ox + tile.width) * 4 <= len,
            canvas@.len() == len,
            canvas@ == blitted(start, width as int, tile.pixels@, tw_i, ox as int, oy as int, r as nat),
        decreases th - r,
    {
        proof {
            lemma_blit_row_bounds(width as int, tw_i, th_i, ox as int, oy as int, r as int, len as int, plen as int);
        }
        let n = (tile.width as usize) * 4;
        let row: u64 = (oy as u64) + (r as u64);
        let d64: u64 = (row * (width as u64) + (ox as u64)) * 4;
        let d = d64 as usize;
        let src = r * (tile.width as usize) * 4;
        let ghost prev = canvas@;
        let mut j: usize = 0;
        while j < n
            invariant
                j <= n,
                d + n <= len,
                src + n <= plen,
                plen == tile.pixels@.len(),
                prev.len() == len,
                canvas@ == splice(prev, d as int, tile.pixels@.subrange(src as int, src + j)),
            decreases n - j,
        {
            canvas.set(d + j, tile.pixels[src + j]);
            j = j + 1;
            assert(canvas@ =~= splice(prev, d as int, tile.pixels@.subrange(src as int, src + j)));
        }
        r = r + 1;
        proof {
            assert(src == (r - 1) * tw_i * 4);
            assert(d == ((oy + (r - 1)) * width + ox) * 4);
        }
    }
}

/// Where the tile fits inside a `width × height` canvas, compositing is pasting the
/// tile's rows of `4 · tile width` bytes into the canvas's rows of `4 · width` bytes,
/// so [`crate::raster::law_paste_cell`] tells what each canvas byte becomes.
pub proof fn law_composite_is_paste_when_fits(
    canvas: Seq<u8>,
    width: int,
    height: int,
    tile: Seq<u8>,
    tw: int,
    th: nat,
    ox: int,
    oy: int,
)
    requires
        canvas.len() == width * height * 4,
        tile.len() == tw * th * 4,
        0 <= tw,
        0 <= ox,
        0 <= oy,
        ox + tw <= width,
        oy + th <= height,
    ensures
        blitted(canvas, width, tile, tw, ox, oy, th) == pasted_rows(canvas, height, width * 4, tile, tw * 4, oy, ox * 4, th),
{
    lemma_blit_paste_upto(canvas, width, height, tile, tw, ox, oy, th);
}

proof fn lemma_blit_paste_upto(canvas: Seq<u8>, width: int, height: int, tile: Seq<u8>, tw: int, ox: int, oy: int, m: nat)
    requires
        0 <= tw,
        0 <= ox,
        ox + tw <= width,
        oy + m <= height,
    ensures
        blitted(canvas, width, tile, tw, ox, oy, m) == pasted_rows(canvas, height, width * 4, tile, tw * 4, oy, ox * 4, m),
    decreases m,
{
    if m > 0 {
        lemma_blit_paste_upto(canvas, width, height, tile, tw, ox, oy, (m - 1) as nat);
        let r = m - 1;
        assert(((oy + r) * width + ox) * 4 == (oy + r) * (width * 4) + ox * 4) by (nonlinear_arith);
        assert(r * tw * 4 == r * (tw * 4)) by (nonlinear_arith);
        assert(min_int(tw * 4, width * 4 - ox * 4) == tw * 4);
    }
}

} // verus!
