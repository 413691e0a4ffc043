//! Turning iteration counts into palette positions per pixel, and pixel
//! data into an RGB image.
use vstd::prelude::*;

use crate::tiles::{
    div_ceil, is_grid_tile, lemma_index_split, lemma_row_major, lemma_tiles_partition_target, sat_sub,
    smaller, tile_contains, Tile,
};

verus! {

/// Palette position for iteration count `iter` in a palette of `palette_len` colours.
pub open spec fn shade(iter: u16, palette_len: int) -> int {
    smaller(iter as int, sat_sub(palette_len, 1))
}

/// Palette positions for a row-major `width` x `height` grid of iteration
/// counts: pixel `k` gets the count `iters[k]`, capped at the last
/// palette position.
pub fn palette_indices(iters: &[u16], width: usize, height: usize, palette_len: usize) -> (r: Vec<
    usize,
>)
    requires
        width * height <= iters@.len(),
    ensures
        r@.len() == width * height,
        forall|k: int| 0 <= k < r@.len() ==> #[trigger] r@[k] == shade(iters@[k], palette_len as int),
{
    let mut r: Vec<usize> = Vec::new();
    let mut y: usize = 0;
    assert(iters@.len() == iters.len());
    while y < height
        invariant
            y <= height,
            width * height <= iters@.len(),
            width * height <= usize::MAX,
            r@.len() == y * width,
            forall|k: int| 0 <= k < r@.len() ==> #[trigger] r@[k] == shade(iters@[k], palette_len as int),
        decreases height - y,
    {
        let mut x: usize = 0;
        while x < width
            invariant
                y < height,
                x <= width,
                width * height <= iters@.len(),
                width * height <= usize::MAX,
                r@.len() == y * width + x,
                forall|k: int| 0 <= k < r@.len() ==> #[trigger] r@[k] == shade(iters@[k], palette_len as int),
            decreases width - x,
        {
            proof {
                lemma_row_major(width as int, height as int, y as int, x as int);
                assert(width * height == height * width) by (nonlinear_arith);
            }
            let index = y * width + x;
            r.push(crate::palette::palette_index(iters[index], palette_len));
            x = x + 1;
        }
        assert((y + 1) * width == y * width + width) by (nonlinear_arith);
        y = y + 1;
    }
    assert(height * width == width * height) by (nonlinear_arith);
    r
}

/// Pixel `p` of a `width`-wide row-major target lies in a finished tile.
pub open spec fn pixel_shown(
    width: int,
    p: int,
    tile_done: Seq<bool>,
    tile_cols: int,
    tile_rows: int,
    tile_size: int,
) -> bool {
    let col = (p % width) / tile_size;
    let row = (p / width) / tile_size;
    let t = row * tile_cols + col;
    &&& tile_size > 0
    &&& col < tile_cols
    &&& row < tile_rows
    &&& t < tile_done.len()
    &&& tile_done[t]
}

/// Palette positions for the pixels of finished tiles of a partly rendered
/// target; `None` for the pixels that stay transparent.
///
/// Pixel `k` is shown when the tile holding it, in a grid of `tile_cols` x
/// `tile_rows` tiles of `tile_size` pixels, is marked done in `tile_done`.
pub fn masked_palette_indices(
    iters: &[u16],
    width: usize,
    height: usize,
    palette_len: usize,
    tile_done: &[bool],
    tile_cols: usize,
    tile_rows: usize,
    tile_size: usize,
) -> (r: Vec<Option<usize>>)
    requires
        width * height <= usize::MAX,
        tile_rows * tile_cols <= usize::MAX,
        forall|k: int|
            0 <= k < width * height && pixel_shown(
                width as int,
                k,
                tile_done@,
                tile_cols as int,
                tile_rows as int,
                tile_size as int,
            ) ==> k < iters@.len(),
    ensures
        r@.len() == width * height,
        forall|k: int|
            0 <= k < r@.len() ==> #[trigger] r@[k] == if pixel_shown(
                width as int,
                k,
                tile_done@,
                tile_cols as int,
                tile_rows as int,
                tile_size as int,
            ) {
                Some(shade(iters@[k], palette_len as int) as usize)
            } else {
                None
            },
{
    let mut r: Vec<Option<usize>> = Vec::new();
    let mut y: usize = 0;
    while y < height
        invariant
            y <= height,
            width * height <= usize::MAX,
            tile_rows * tile_cols <= usize::MAX,
            forall|k: int|
                0 <= k < width * height && pixel_shown(
                    width as int,
                    k,
                    tile_done@,
                    tile_cols as int,
                    tile_rows as int,
                    tile_size as int,
                ) ==> k < iters@.len(),
            r@.len() == y * width,
            forall|k: int|
                0 <= k < r@.len() ==> #[trigger] r@[k] == if pixel_shown(
                    width as int,
                    k,
                    tile_done@,
                    tile_cols as int,
                    tile_rows as int,
                    tile_size as int,
                ) {
                    Some(shade(iters@[k], palette_len as int) as usize)
                } else {
                    None
                },
        decreases height - y,
    {
        let mut x: usize = 0;
        while x < width
            invariant
                y < height,
                x <= width,
                width * height <= usize::MAX,
                tile_rows * tile_cols <= usize::MAX,
                forall|k: int|
                    0 <= k < width * height && pixel_shown(
                        width as int,
                        k,
                        tile_done@,
                        tile_cols as int,
                        tile_rows as int,
                        tile_size as int,
                    ) ==> k < iters@.len(),
                r@.len() == y * width + x,
                forall|k: int|
                    0 <= k < r@.len() ==> #[trigger] r@[k] == if pixel_shown(
                        width as int,
                        k,
                        tile_done@,
                        tile_cols as int,
                        tile_rows as int,
                        tile_size as int,
                    ) {
                        Some(shade(iters@[k], palette_len as int) as usize)
                    } else {
                        None
                    },
            decreases width - x,
        {
            proof {
                lemma_row_major(width as int, height as int, y as int, x as int);
                assert(width * height == height * width) by (nonlinear_arith);
            }
            let index = y * width + x;
            let mut shown = false;
            if tile_size > 0 {
                let col = x / tile_size;
                let row = y / tile_size;
                if col < tile_cols && row < tile_rows {
                    proof {
                        lemma_row_major(tile_cols as int, tile_rows as int, row as int, col as int);
                        assert(tile_rows * tile_cols == tile_cols * tile_rows) by (nonlinear_arith);
                    }
                    let t = row * tile_cols + col;
                    shown = t < tile_done.len() && tile_done[t];
                }
            }
            assert(shown == pixel_shown(
                width as int,
                index as int,
                tile_done@,
                tile_cols as int,
                tile_rows as int,
                tile_size as int,
            ));
            if shown {
                r.push(Some(crate::palette::palette_index(iters[index], palette_len)));
            } else {
                r.push(None);
            }
            x = x + 1;
        }
        assert((y + 1) * width == y * width + width) by (nonlinear_arith);
        y = y + 1;
    }
    assert(height * width == width * height) by (nonlinear_arith);
    r
}

/// The RGB bytes of RGBA pixel data: the first three bytes of every
/// complete group of four, in order.
pub open spec fn rgb_bytes(rgba: Seq<u8>) -> Seq<u8> {
    Seq::new(((rgba.len() / 4) * 3) as nat, |k: int| rgba[(k / 3) * 4 + k % 3])
}

/// Drops the alpha channel from RGBA pixel data.
pub fn rgba_to_rgb(rgba: &[u8]) -> (r: Vec<u8>)
    ensures
        r@ == rgb_bytes(rgba@),
{
    let n = rgba.len() / 4;
    let mut r: Vec<u8> = Vec::new();
    let mut i: usize = 0;
    assert(rgba@.len() == rgba.len());
    proof {
        vstd::arithmetic::div_mod::lemma_fundamental_div_mod(rgba@.len() as int, 4);
    }
    while i < n
        invariant
            n == rgba@.len() / 4,
            n * 4 <= rgba@.len(),
            rgba@.len() <= usize::MAX,
            i <= n,
            r@.len() == i * 3,
            forall|k: int| 0 <= k < r@.len() ==> #[trigger] r@[k] == rgba@[(k / 3) * 4 + k % 3],
        decreases n - i,
    {
        proof {
            assert(i * 4 + 4 <= n * 4) by (nonlinear_arith)
                requires
                    i < n,
            ;
            vstd::arithmetic::div_mod::lemma_fundamental_div_mod_converse(i * 3 + 0, 3, i as int, 0);
            vstd::arithmetic::div_mod::lemma_fundamental_div_mod_converse(i * 3 + 1, 3, i as int, 1);
            vstd::arithmetic::div_mod::lemma_fundamental_div_mod_converse(i * 3 + 2, 3, i as int, 2);
        }
        let base = i * 4;
        r.push(rgba[base]);
        r.push(rgba[base + 1]);
        r.push(rgba[base + 2]);
        i = i + 1;
    }
    assert(r@ =~= rgb_bytes(rgba@));
    r
}

/// An escape-time iteration count as stored per pixel: capped at `u16::MAX`.
pub fn stored_iterations(count: usize) -> (r: u16)
    ensures
        r == smaller(count as int, u16::MAX as int),
{
    if count <= u16::MAX as usize {
        count as u16
    } else {
        u16::MAX
    }
}

} // verus!

verus! {

/// Once every tile of a render is done, every pixel of the target is shown.
pub proof fn lemma_finished_render_fully_shown(
    width: int,
    height: int,
    tile_size: int,
    tile_done: Seq<bool>,
    k: int,
)
    requires
        tile_size > 0,
        tile_done.len() == div_ceil(width, tile_size) * div_ceil(height, tile_size),
        forall|t: int| 0 <= t < tile_done.len() ==> #[trigger] tile_done[t],
        width >= 0,
        height >= 0,
        0 <= k < width * height,
    ensures
        pixel_shown(
            width,
            k,
            tile_done,
            div_ceil(width, tile_size),
            div_ceil(height, tile_size),
            tile_size,
        ),
{
    let cols = div_ceil(width, tile_size);
    let rows = div_ceil(height, tile_size);
    assert(width > 0 && height > 0) by {
        if width == 0 || height == 0 {
            assert(width * height == 0) by (nonlinear_arith)
                requires
                    width == 0 || height == 0,
            ;
        }
    }
    assert(height * width == width * height) by (nonlinear_arith);
    lemma_index_split(width, height, k);
    let px = k % width;
    let py = k / width;
    crate::tiles::lemma_cell_in_grid(px, width, tile_size);
    crate::tiles::lemma_cell_in_grid(py, height, tile_size);
    lemma_row_major(cols, rows, py / tile_size, px / tile_size);
    assert(rows * cols == cols * rows) by (nonlinear_arith);
}

} // verus!

verus! {

/// Every iteration count up to `max_iter` has a palette entry of its own: with
/// the `max_iter + 1` entries of a generated palette, a count is never capped.
pub proof fn lemma_counts_keep_their_colour(max_iter: nat, count: u16)
    requires
        count <= max_iter,
    ensures
        shade(count, max_iter + 1 as int) == count,
{
}

} // verus!

verus! {

/// A pixel of a partly rendered target is shown exactly when the tile that
/// holds it is done.
///
/// `t` is a tile of the grid that `tiles_checkerboard` makes for the target,
/// numbered row-major, and `(px, py)` a pixel inside it; the pixel, at
/// row-major position `py * width + px`, is shown exactly when
/// `tile_done[t.index]` is set.
pub proof fn lemma_pixel_shown_by_its_tile(
    width: int,
    height: int,
    tile_size: int,
    tile_done: Seq<bool>,
    t: Tile,
    px: int,
    py: int,
)
    requires
        width >= 0,
        height >= 0,
        tile_size > 0,
        tile_done.len() == div_ceil(width, tile_size) * div_ceil(height, tile_size),
        0 <= t.index < tile_done.len(),
        is_grid_tile(t, width, height, tile_size, t.index as int),
        0 <= px < width,
        0 <= py < height,
        tile_contains(t, px, py),
    ensures
        pixel_shown(
            width,
            py * width + px,
            tile_done,
            div_ceil(width, tile_size),
            div_ceil(height, tile_size),
            tile_size,
        ) == tile_done[t.index as int],
{
    let cols = div_ceil(width, tile_size);
    let rows = div_ceil(height, tile_size);
    lemma_tiles_partition_target(width, height, tile_size, t, px, py);
    lemma_row_major(width, height, py, px);
    crate::tiles::lemma_cell_in_grid(px, width, tile_size);
    crate::tiles::lemma_cell_in_grid(py, height, tile_size);
    let k = py * width + px;
    assert(k % width == px && k / width == py);
}

} // verus!
