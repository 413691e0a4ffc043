//! Splitting a render target into square tiles, and the centre-out,
//! checkerboard order in which the tiles are handed to the workers.
use vstd::prelude::*;

use crate::sort::{key_lt, lemma_sorted_permutation_strict, sort_keys};

verus! {

/// One rectangular piece of the render target.
#[derive(Clone, Copy, Debug, PartialEq, Eq, Structural)]
pub struct Tile {
    /// Row-major position of the tile in the grid.
    pub index: usize,
    /// Left edge, in pixels.
    pub x: usize,
    /// Top edge, in pixels.
    pub y: usize,
    /// Width in pixels (smaller than the tile size at the right border).
    pub width: usize,
    /// Height in pixels (smaller than the tile size at the bottom border).
    pub height: usize,
}

/// `a / b` rounded up.
pub open spec fn div_ceil(a: int, b: int) -> int {
    (a + b - 1) / b
}

/// `a - b`, or 0 where that is negative.
pub open spec fn sat_sub(a: int, b: int) -> int {
    if a > b {
        a - b
    } else {
        0
    }
}

/// The smaller of two integers.
pub open spec fn smaller(a: int, b: int) -> int {
    if a <= b {
        a
    } else {
        b
    }
}

/// `t` is the tile at row-major position `k` of the grid that covers a
/// `width` x `height` target with tiles of `tile_size` pixels.
pub open spec fn is_grid_tile(t: Tile, width: int, height: int, tile_size: int, k: int) -> bool {
    let cols = div_ceil(width, tile_size);
    let col = k % cols;
    let row = k / cols;
    &&& t.index == k
    &&& t.x == col * tile_size
    &&& t.y == row * tile_size
    &&& t.width == smaller(tile_size, sat_sub(width, col * tile_size))
    &&& t.height == smaller(tile_size, sat_sub(height, row * tile_size))
}

/// Some tile of `tiles` sits at row-major position `k`.
pub open spec fn has_tile(tiles: Seq<Tile>, k: int) -> bool {
    exists|i: int| 0 <= i < tiles.len() && tiles[i].index == k
}

/// Pixel `(px, py)` lies inside tile `t`.
pub open spec fn tile_contains(t: Tile, px: int, py: int) -> bool {
    t.x <= px < t.x + t.width && t.y <= py < t.y + t.height
}

/// Integer square root: the largest `r` with `r * r <= n`.
pub open spec fn isqrt(n: nat) -> nat
    decreases n,
{
    if n == 0 {
        0
    } else {
        let r = isqrt((n - 1) as nat);
        if (r + 1) * (r + 1) <= n {
            r + 1
        } else {
            r
        }
    }
}

/// Twice the signed distance between the centre of cell `i` and the
/// centre of a row of `n` cells.
pub open spec fn centre_offset(i: int, n: int) -> int {
    2 * i + 1 - n
}

/// Four times the squared distance, in tile units, between the centre of
/// tile `k` and the centre of a `cols` x `rows` grid.
pub open spec fn dist4(cols: int, rows: int, k: int) -> int {
    let a = centre_offset(k % cols, cols);
    let b = centre_offset(k / cols, rows);
    a * a + b * b
}

/// The ring of tile `k`: its distance from the grid centre, in tile units,
/// rounded down.
pub open spec fn ring(cols: int, rows: int, k: int) -> int {
    isqrt((dist4(cols, rows, k) / 4) as nat) as int
}

/// 0 for the "black" squares of the checkerboard, 1 for the "white" ones.
pub open spec fn parity(cols: int, k: int) -> int {
    (k % cols + k / cols) % 2
}

/// Rings up to this one are rendered strictly nearest-first; the outer
/// rings are rendered black squares first, then white squares.
pub open spec fn seed_ring() -> int {
    3
}

/// Tile `i` is rendered before tile `j`.
///
/// Tiles go ring by ring from the centre outwards.  Inside one of the
/// first rings they go by distance, black squares before white ones at
/// equal distance; inside an outer ring all black squares go before the
/// white ones, each colour by distance.  Remaining ties go by row-major
/// position.
pub open spec fn tile_before(cols: int, rows: int, i: int, j: int) -> bool {
    let ri = ring(cols, rows, i);
    let rj = ring(cols, rows, j);
    let di = dist4(cols, rows, i);
    let dj = dist4(cols, rows, j);
    let pi = parity(cols, i);
    let pj = parity(cols, j);
    if ri != rj {
        ri < rj
    } else if ri <= seed_ring() {
        di < dj || (di == dj && (pi < pj || (pi == pj && i < j)))
    } else {
        pi < pj || (pi == pj && (di < dj || (di == dj && i < j)))
    }
}

/// Integer square root, characterised.
pub proof fn lemma_isqrt(n: nat)
    ensures
        isqrt(n) * isqrt(n) <= n,
        n < (isqrt(n) + 1) * (isqrt(n) + 1),
    decreases n,
{
    if n > 0 {
        lemma_isqrt((n - 1) as nat);
        let r = isqrt((n - 1) as nat);
        let s = isqrt(n);
        if (r + 1) * (r + 1) <= n {
            assert(s == r + 1);
            assert(n <= (r + 1) * (r + 1));
            assert((r + 1) * (r + 1) < (r + 2) * (r + 2)) by (nonlinear_arith);
            assert(s * s <= n);
            assert(n < (s + 1) * (s + 1));
        } else {
            assert(s == r);
            assert(s * s <= n);
            assert(n < (s + 1) * (s + 1));
        }
    } else {
        let s = isqrt(n);
        assert(s == 0);
        assert((s + 1) * (s + 1) == 1) by (nonlinear_arith)
            requires
                s == 0,
        ;
    }
}

/// The integer square root is the only `r >= 0` with `r * r <= n < (r + 1) * (r + 1)`.
pub proof fn lemma_isqrt_unique(n: nat, r: int)
    requires
        0 <= r,
        r * r <= n,
        n < (r + 1) * (r + 1),
    ensures
        r == isqrt(n),
{
    lemma_isqrt(n);
    let s = isqrt(n) as int;
    if r < s {
        assert((r + 1) * (r + 1) <= s * s) by (nonlinear_arith)
            requires
                0 <= r < s,
        ;
    } else if s < r {
        assert((s + 1) * (s + 1) <= r * r) by (nonlinear_arith)
            requires
                0 <= s < r,
        ;
    }
}

proof fn lemma_div_ceil_bounds(a: int, b: int)
    requires
        a >= 0,
        b > 0,
    ensures
        div_ceil(a, b) >= 0,
        div_ceil(a, b) * b >= a,
        div_ceil(a, b) * b <= a + b - 1,
        div_ceil(a, b) <= a,
        a > 0 ==> div_ceil(a, b) > 0,
{
    let q = div_ceil(a, b);
    vstd::arithmetic::div_mod::lemma_fundamental_div_mod(a + b - 1, b);
    let r = (a + b - 1) % b;
    assert(a + b - 1 == b * q + r);
    assert(q * b == b * q) by (nonlinear_arith);
    assert(0 <= r < b);
    if q > a {
        assert(q * b >= (a + 1) * b) by (nonlinear_arith)
            requires
                q >= a + 1,
                b > 0,
        ;
        assert((a + 1) * b == a * b + b) by (nonlinear_arith);
        assert(a * b >= a) by (nonlinear_arith)
            requires
                a >= 0,
                b > 0,
        ;
    }
    if q <= 0 {
        assert(q * b <= 0) by (nonlinear_arith)
            requires
                q <= 0,
                b > 0,
        ;
    }
}

/// A cell strictly before the last one starts before the end of the covered length.
proof fn lemma_cell_start(c: int, len: int, size: int)
    requires
        len >= 0,
        size > 0,
        0 <= c < div_ceil(len, size),
    ensures
        0 <= c * size < len,
        c * size + size <= len + size - 1,
{
    lemma_div_ceil_bounds(len, size);
    let q = div_ceil(len, size);
    assert(c * size + size <= q * size) by (nonlinear_arith)
        requires
            c + 1 <= q,
            size > 0,
    ;
    assert(c * size >= 0) by (nonlinear_arith)
        requires
            c >= 0,
            size > 0,
    ;
}

/// Row-major position arithmetic: `row * cols + col` is below `rows * cols`
/// and splits back into `row` and `col`.
pub proof fn lemma_row_major(cols: int, rows: int, row: int, col: int)
    requires
        0 <= row < rows,
        0 <= col < cols,
    ensures
        0 <= row * cols + col < rows * cols,
        (row * cols + col) % cols == col,
        (row * cols + col) / cols == row,
{
    assert(0 <= row * cols + col < rows * cols) by (nonlinear_arith)
        requires
            0 <= row < rows,
            0 <= col < cols,
    ;
    vstd::arithmetic::div_mod::lemma_fundamental_div_mod_converse(row * cols + col, cols, row, col);
}

/// A position below `rows * cols` splits into a row below `rows` and a
/// column below `cols`.
pub proof fn lemma_index_split(cols: int, rows: int, k: int)
    requires
        cols > 0,
        0 <= k < rows * cols,
    ensures
        0 <= k % cols < cols,
        0 <= k / cols < rows,
        k == (k / cols) * cols + k % cols,
{
    vstd::arithmetic::div_mod::lemma_fundamental_div_mod(k, cols);
    assert(cols * (k / cols) == (k / cols) * cols) by (nonlinear_arith);
    if k / cols >= rows {
        assert((k / cols) * cols >= rows * cols) by (nonlinear_arith)
            requires
                k / cols >= rows,
                cols > 0,
        ;
    }
    if k / cols < 0 {
        assert((k / cols) * cols <= -cols) by (nonlinear_arith)
            requires
                k / cols <= -1,
                cols > 0,
        ;
    }
}

/// How many tiles of `tile_size` pixels cover `width` and `height` pixels:
/// `(columns, rows)`, each the length divided by the tile size, rounded up.
pub fn tile_layout(width: usize, height: usize, tile_size: usize) -> (r: (usize, usize))
    requires
        tile_size > 0,
    ensures
        r.0 == div_ceil(width as int, tile_size as int),
        r.1 == div_ceil(height as int, tile_size as int),
{
    (ceil_div(width, tile_size), ceil_div(height, tile_size))
}

fn ceil_div(len: usize, size: usize) -> (n: usize)
    requires
        size > 0,
    ensures
        n == div_ceil(len as int, size as int),
{
    let q = len / size;
    let r = len % size;
    proof {
        vstd::arithmetic::div_mod::lemma_fundamental_div_mod(len as int, size as int);
        let qq = if r == 0 { q as int } else { q + 1 };
        let rr = if r == 0 { size - 1 } else { r - 1 };
        assert(len + size - 1 == qq * size + rr) by (nonlinear_arith)
            requires
                len as int == size * q + r,
                qq == (if r == 0 { q as int } else { q + 1 }),
                rr == (if r == 0 { size - 1 } else { r - 1 }),
        ;
        vstd::arithmetic::div_mod::lemma_fundamental_div_mod_converse(
            len + size - 1,
            size as int,
            qq,
            if r == 0 { size - 1 } else { r - 1 },
        );
        assert(len as int == size * q + r);
        if r > 0 {
            assert(q * size <= len) by (nonlinear_arith)
                requires
                    len as int == size * q + r,
                    r > 0,
            ;
            assert(q < len) by (nonlinear_arith)
                requires
                    q * size <= len,
                    size > 0,
                    len > 0,
                    q >= 0,
                    len as int == size * q + r,
                    r > 0,
            ;
        }
    }
    if r == 0 {
        q
    } else {
        q + 1
    }
}

/// `isqrt(n)` for `n < 2^64`, by bisection.
fn isqrt_exec(n: u128) -> (r: u128)
    requires
        n < 0x1_0000_0000_0000_0000,
    ensures
        r == isqrt(n as nat),
        r < 0x1_0000_0000,
{
    let mut lo: u128 = 0;
    let mut hi: u128 = 0x1_0000_0000;
    assert(hi * hi == 0x1_0000_0000_0000_0000) by (nonlinear_arith)
        requires
            hi == 0x1_0000_0000,
    ;
    while hi - lo > 1
        invariant
            lo < hi <= 0x1_0000_0000,
            lo * lo <= n,
            n < hi * hi,
        decreases hi - lo,
    {
        let mid = lo + (hi - lo) / 2;
        assert(mid * mid <= 0x1_0000_0000_0000_0000) by (nonlinear_arith)
            requires
                mid <= 0x1_0000_0000,
        ;
        if mid * mid <= n {
            lo = mid;
        } else {
            hi = mid;
        }
    }
    proof {
        lemma_isqrt_unique(n as nat, lo as int);
    }
    lo
}

/// Position of a tile in the rendering order, up to ties between equal keys.
spec fn order_major(cols: int, rows: int, k: int) -> int {
    let r = ring(cols, rows, k);
    let d = dist4(cols, rows, k);
    let p = parity(cols, k);
    if r <= seed_ring() {
        r * 0x40_0000_0000_0000_0000 + 2 * d + p
    } else {
        r * 0x40_0000_0000_0000_0000 + p * 0x10_0000_0000_0000_0000 + d
    }
}

/// Sort key of tile `k`: the order position, then the row-major position.
spec fn tile_key(cols: int, rows: int, k: int) -> (u128, usize) {
    (order_major(cols, rows, k) as u128, k as usize)
}

/// Bounds on the quantities the tile order is built from.
proof fn lemma_key_bounds(cols: int, rows: int, k: int)
    requires
        0 < cols <= 0x1_0000_0000,
        0 < rows <= 0x1_0000_0000,
        0 <= k < rows * cols,
    ensures
        0 <= dist4(cols, rows, k) < 0x2_0000_0000_0000_0000,
        0 <= ring(cols, rows, k) < 0x1_0000_0000,
        0 <= parity(cols, k) <= 1,
        0 <= order_major(cols, rows, k) < 0x4000_0000_0000_0000_0000_0000_0000,
{
    lemma_index_split(cols, rows, k);
    let a = centre_offset(k % cols, cols);
    let b = centre_offset(k / cols, rows);
    assert(a * a <= 0xffff_ffff_ffff_ffff && a * a >= 0) by (nonlinear_arith)
        requires
            -0xffff_ffff <= a <= 0xffff_ffff,
    ;
    assert(b * b <= 0xffff_ffff_ffff_ffff && b * b >= 0) by (nonlinear_arith)
        requires
            -0xffff_ffff <= b <= 0xffff_ffff,
    ;
    let n = (dist4(cols, rows, k) / 4) as nat;
    lemma_isqrt(n);
    let r = isqrt(n) as int;
    if r >= 0x1_0000_0000 {
        assert(r * r >= 0x1_0000_0000_0000_0000) by (nonlinear_arith)
            requires
                r >= 0x1_0000_0000,
        ;
    }
    let m = order_major(cols, rows, k);
    assert(r * 0x40_0000_0000_0000_0000 <= 0xffff_ffff * 0x40_0000_0000_0000_0000) by (nonlinear_arith)
        requires
            0 <= r <= 0xffff_ffff,
    ;
    assert(r * 0x40_0000_0000_0000_0000 >= 0) by (nonlinear_arith)
        requires
            0 <= r,
    ;
}

/// Comparing sort keys compares tiles in rendering order.
proof fn lemma_key_order(cols: int, rows: int, i: int, j: int)
    requires
        0 < cols <= 0x1_0000_0000,
        0 < rows <= 0x1_0000_0000,
        0 <= i < rows * cols,
        0 <= j < rows * cols,
        rows * cols <= usize::MAX,
        key_lt(tile_key(cols, rows, i), tile_key(cols, rows, j)),
    ensures
        tile_before(cols, rows, i, j),
{
    lemma_key_bounds(cols, rows, i);
    lemma_key_bounds(cols, rows, j);
    let ri = ring(cols, rows, i);
    let rj = ring(cols, rows, j);
    let big: int = 0x40_0000_0000_0000_0000;
    let li = order_major(cols, rows, i) - ri * big;
    let lj = order_major(cols, rows, j) - rj * big;
    assert(0 <= li < big);
    assert(0 <= lj < big);
    if ri < rj {
        assert(ri * big + big <= rj * big) by (nonlinear_arith)
            requires
                ri + 1 <= rj,
                big > 0,
        ;
    } else if ri > rj {
        assert(rj * big + big <= ri * big) by (nonlinear_arith)
            requires
                rj + 1 <= ri,
                big > 0,
        ;
    }
}

/// Computes the sort key of the tile in column `col` and row `row`.
fn tile_key_exec(cols: usize, rows: usize, col: usize, row: usize) -> (key: (u128, usize))
    requires
        0 < cols <= 0x1_0000_0000,
        0 < rows <= 0x1_0000_0000,
        col < cols,
        row < rows,
        rows * cols <= usize::MAX,
    ensures
        key == tile_key(cols as int, rows as int, row * cols + col),
{
    proof {
        lemma_row_major(cols as int, rows as int, row as int, col as int);
    }
    let k = row * cols + col;
    proof {
        lemma_key_bounds(cols as int, rows as int, k as int);
    }
    let (c, cs, w, ws) = (col as u128, cols as u128, row as u128, rows as u128);
    let a: u128 = if 2 * c + 1 >= cs {
        2 * c + 1 - cs
    } else {
        cs - 2 * c - 1
    };
    let b: u128 = if 2 * w + 1 >= ws {
        2 * w + 1 - ws
    } else {
        ws - 2 * w - 1
    };
    proof {
        let ca = centre_offset(col as int, cols as int);
        let cb = centre_offset(row as int, rows as int);
        assert(a * a == ca * ca) by (nonlinear_arith)
            requires
                a == ca || a == -ca,
        ;
        assert(b * b == cb * cb) by (nonlinear_arith)
            requires
                b == cb || b == -cb,
        ;
        assert(a * a <= 0xffff_ffff_ffff_ffff) by (nonlinear_arith)
            requires
                a <= 0xffff_ffff,
        ;
        assert(b * b <= 0xffff_ffff_ffff_ffff) by (nonlinear_arith)
            requires
                b <= 0xffff_ffff,
        ;
    }
    let d: u128 = a * a + b * b;
    let r: u128 = isqrt_exec(d / 4);
    let p: u128 = (c + w) % 2;
    proof {
        assert(r * 0x40_0000_0000_0000_0000 <= 0xffff_ffff * 0x40_0000_0000_0000_0000) by (nonlinear_arith)
            requires
                r <= 0xffff_ffff,
        ;
    }
    let major: u128 = if r <= 3 {
        r * 0x40_0000_0000_0000_0000 + 2 * d + p
    } else {
        r * 0x40_0000_0000_0000_0000 + p * 0x10_0000_0000_0000_0000 + d
    };
    (major, k)
}

/// The tile at row-major position `k`.
fn grid_tile(width: usize, height: usize, tile_size: usize, cols: usize, rows: usize, k: usize) -> (t:
    Tile)
    requires
        tile_size > 0,
        cols == div_ceil(width as int, tile_size as int),
        rows == div_ceil(height as int, tile_size as int),
        k < rows * cols,
    ensures
        is_grid_tile(t, width as int, height as int, tile_size as int, k as int),
{
    proof {
        lemma_div_ceil_bounds(width as int, tile_size as int);
        lemma_index_split(cols as int, rows as int, k as int);
        lemma_cell_start((k % cols) as int, width as int, tile_size as int);
        lemma_cell_start((k / cols) as int, height as int, tile_size as int);
    }
    let col = k % cols;
    let row = k / cols;
    let x = col * tile_size;
    let y = row * tile_size;
    let w = width.saturating_sub(x);
    let h = height.saturating_sub(y);
    Tile {
        index: k,
        x,
        y,
        width: if tile_size <= w { tile_size } else { w },
        height: if tile_size <= h { tile_size } else { h },
    }
}

/// `tiles`, with `cols` columns and `rows` rows of tiles, is the rendering
/// order of the tiles of a `width` x `height` target cut into tiles of
/// `tile_size` pixels: every tile of the grid exactly once, centre-out by
/// rings, and within a ring as `tile_before` describes.
pub open spec fn checkerboard_tiles(
    tiles: Seq<Tile>,
    width: int,
    height: int,
    tile_size: int,
    cols: int,
    rows: int,
) -> bool {
    &&& cols == div_ceil(width, tile_size)
    &&& rows == div_ceil(height, tile_size)
    &&& tiles.len() == cols * rows
    &&& forall|i: int|
        0 <= i < tiles.len() ==> #[trigger] tiles[i].index < cols * rows && is_grid_tile(
            tiles[i],
            width,
            height,
            tile_size,
            tiles[i].index as int,
        )
    &&& forall|i: int, j: int|
        0 <= i < j < tiles.len() ==> tile_before(
            cols,
            rows,
            #[trigger] tiles[i].index as int,
            #[trigger] tiles[j].index as int,
        )
    &&& forall|i: int, j: int|
        0 <= i < j < tiles.len() ==> ring(cols, rows, #[trigger] tiles[i].index as int) <= ring(
            cols,
            rows,
            #[trigger] tiles[j].index as int,
        )
    &&& forall|k: int| 0 <= k < cols * rows ==> #[trigger] has_tile(tiles, k)
}

/// Splits a `width` x `height` render target into tiles of `tile_size`
/// pixels and orders them for rendering.
///
/// Returns the tiles with the number of tile columns and rows.  Every tile
/// of the grid appears exactly once; the order is centre-out by rings, and
/// within a ring as `tile_before` describes.
pub fn tiles_checkerboard(width: usize, height: usize, tile_size: usize) -> (r: (Vec<Tile>, usize, usize))
    requires
        tile_size > 0,
        div_ceil(width as int, tile_size as int) <= 0x1_0000_0000,
        div_ceil(height as int, tile_size as int) <= 0x1_0000_0000,
        div_ceil(width as int, tile_size as int) * div_ceil(height as int, tile_size as int)
            <= usize::MAX,
    ensures
        checkerboard_tiles(r.0@, width as int, height as int, tile_size as int, r.1 as int, r.2 as int),
{
    broadcast use vstd::seq_lib::group_to_multiset_ensures;

    let (cols, rows) = tile_layout(width, height, tile_size);
    proof {
        lemma_div_ceil_bounds(width as int, tile_size as int);
        lemma_div_ceil_bounds(height as int, tile_size as int);
    }
    let ghost n = rows * cols;
    assert(cols * rows == rows * cols) by (nonlinear_arith);
    let mut keys: Vec<(u128, usize)> = Vec::new();
    if cols > 0 && rows > 0 {
        let mut row: usize = 0;
        while row < rows
            invariant
                0 < cols <= 0x1_0000_0000,
                0 < rows <= 0x1_0000_0000,
                rows * cols <= usize::MAX,
                row <= rows,
                keys@.len() == row * cols,
                forall|m: int|
                    0 <= m < keys@.len() ==> #[trigger] keys@[m] == tile_key(
                        cols as int,
                        rows as int,
                        m,
                    ),
            decreases rows - row,
        {
            let mut col: usize = 0;
            while col < cols
                invariant
                    0 < cols <= 0x1_0000_0000,
                    0 < rows <= 0x1_0000_0000,
                    rows * cols <= usize::MAX,
                    row < rows,
                    col <= cols,
                    keys@.len() == row * cols + col,
                    forall|m: int|
                        0 <= m < keys@.len() ==> #[trigger] keys@[m] == tile_key(
                            cols as int,
                            rows as int,
                            m,
                        ),
                decreases cols - col,
            {
                let key = tile_key_exec(cols, rows, col, row);
                keys.push(key);
                col = col + 1;
            }
            assert((row + 1) * cols == row * cols + cols) by (nonlinear_arith);
            row = row + 1;
        }
    }
    assert(keys@.len() == n) by {
        if cols == 0 || rows == 0 {
            assert(rows * cols == 0) by (nonlinear_arith)
                requires
                    cols == 0 || rows == 0,
            ;
        }
    }
    assert(keys@.no_duplicates()) by {
        assert forall|p: int, q: int| 0 <= p < keys@.len() && 0 <= q < keys@.len() && p != q implies keys@[p]
            != keys@[q] by {
            assert(keys@[p].1 == p as usize);
            assert(keys@[q].1 == q as usize);
        }
    }
    let sorted = sort_keys(&keys);
    proof {
        lemma_sorted_permutation_strict(keys@, sorted@);
    }
    // Every sorted key is the key of some tile of the grid.
    assert forall|i: int| 0 <= i < sorted@.len() implies (#[trigger] sorted@[i]).1 < n && sorted@[i]
        == tile_key(cols as int, rows as int, sorted@[i].1 as int) by {
        assert(sorted@.contains(sorted@[i]));
        assert(sorted@.to_multiset().count(sorted@[i]) > 0);
        assert(keys@.contains(sorted@[i]));
        let m = choose|m: int| 0 <= m < keys@.len() && keys@[m] == sorted@[i];
        assert(keys@[m] == tile_key(cols as int, rows as int, m));
    }
    let mut tiles: Vec<Tile> = Vec::new();
    let mut i: usize = 0;
    while i < sorted.len()
        invariant
            sorted@.len() == n,
            i <= sorted@.len(),
            tile_size > 0,
            cols == div_ceil(width as int, tile_size as int),
            rows == div_ceil(height as int, tile_size as int),
            n == rows * cols,
            tiles@.len() == i,
            forall|m: int|
                0 <= m < sorted@.len() ==> (#[trigger] sorted@[m]).1 < n,
            forall|m: int|
                0 <= m < i ==> (#[trigger] tiles@[m]).index == sorted@[m].1 && is_grid_tile(
                    tiles@[m],
                    width as int,
                    height as int,
                    tile_size as int,
                    tiles@[m].index as int,
                ),
        decreases sorted@.len() - i,
    {
        let k = sorted[i].1;
        let t = grid_tile(width, height, tile_size, cols, rows, k);
        tiles.push(t);
        i = i + 1;
    }
    proof {
        assert forall|i: int, j: int| 0 <= i < j < tiles@.len() implies tile_before(
            cols as int,
            rows as int,
            #[trigger] tiles@[i].index as int,
            #[trigger] tiles@[j].index as int,
        ) by {
            assert(key_lt(sorted@[i], sorted@[j]));
            assert(sorted@[i] == tile_key(cols as int, rows as int, sorted@[i].1 as int));
            assert(sorted@[j] == tile_key(cols as int, rows as int, sorted@[j].1 as int));
            lemma_key_order(cols as int, rows as int, sorted@[i].1 as int, sorted@[j].1 as int);
        }
        assert forall|i: int, j: int| 0 <= i < j < tiles@.len() implies ring(
            cols as int,
            rows as int,
            #[trigger] tiles@[i].index as int,
        ) <= ring(cols as int, rows as int, #[trigger] tiles@[j].index as int) by {
            assert(tile_before(cols as int, rows as int, tiles@[i].index as int, tiles@[j].index as int));
        }
        assert forall|k: int| 0 <= k < n implies #[trigger] has_tile(tiles@, k) by {
            assert(keys@[k] == tile_key(cols as int, rows as int, k));
            assert(keys@.contains(keys@[k]));
            assert(keys@.to_multiset().count(keys@[k]) > 0);
            assert(sorted@.contains(keys@[k]));
            let i = choose|i: int| 0 <= i < sorted@.len() && sorted@[i] == keys@[k];
            assert(tiles@[i].index == k);
        }
    }
    (tiles, cols, rows)
}

} // verus!

verus! {

/// Pixel `p` lies in cell `c` of cells `size` long exactly when `p / size == c`.
proof fn lemma_cell_of(p: int, c: int, size: int)
    requires
        p >= 0,
        c >= 0,
        size > 0,
    ensures
        (c * size <= p < c * size + size) <==> p / size == c,
{
    vstd::arithmetic::div_mod::lemma_fundamental_div_mod(p, size);
    assert(size * (p / size) == (p / size) * size) by (nonlinear_arith);
    if c * size <= p < c * size + size {
        vstd::arithmetic::div_mod::lemma_fundamental_div_mod_converse(p, size, c, p - c * size);
    }
}

/// The tiles of a grid partition the render target.
///
/// Every tile of the grid is non-empty and lies inside the target, and a
/// pixel of the target lies in a tile exactly when that tile is the one at
/// row-major position `(py / tile_size) * columns + px / tile_size`; so
/// each pixel lies in exactly one tile.
pub proof fn lemma_tiles_partition_target(
    width: int,
    height: int,
    tile_size: int,
    t: Tile,
    px: int,
    py: int,
)
    requires
        width >= 0,
        height >= 0,
        tile_size > 0,
        0 <= t.index < div_ceil(width, tile_size) * div_ceil(height, tile_size),
        is_grid_tile(t, width, height, tile_size, t.index as int),
        0 <= px < width,
        0 <= py < height,
    ensures
        t.width > 0,
        t.height > 0,
        t.x + t.width <= width,
        t.y + t.height <= height,
        tile_contains(t, px, py) <==> t.index == (py / tile_size) * div_ceil(width, tile_size) + px
            / tile_size,
{
    let cols = div_ceil(width, tile_size);
    let rows = div_ceil(height, tile_size);
    lemma_div_ceil_bounds(width, tile_size);
    lemma_div_ceil_bounds(height, tile_size);
    assert(cols > 0);
    assert(t.index < rows * cols) by (nonlinear_arith)
        requires
            t.index < cols * rows,
    ;
    lemma_index_split(cols, rows, t.index as int);
    let k = t.index as int;
    let col = k % cols;
    let row = k / cols;
    lemma_cell_start(col, width, tile_size);
    lemma_cell_start(row, height, tile_size);
    lemma_cell_of(px, col, tile_size);
    lemma_cell_of(py, row, tile_size);
    // The pixel's own cell is inside the grid.
    let pc = px / tile_size;
    let pr = py / tile_size;
    vstd::arithmetic::div_mod::lemma_fundamental_div_mod(px, tile_size);
    vstd::arithmetic::div_mod::lemma_fundamental_div_mod(py, tile_size);
    assert(pc < cols) by (nonlinear_arith)
        requires
            px == tile_size * pc + px % tile_size,
            0 <= px % tile_size,
            px < width,
            cols * tile_size >= width,
            tile_size > 0,
    ;
    assert(pr < rows) by (nonlinear_arith)
        requires
            py == tile_size * pr + py % tile_size,
            0 <= py % tile_size,
            py < height,
            rows * tile_size >= height,
            tile_size > 0,
    ;
    assert(pc >= 0 && pr >= 0) by {
        vstd::arithmetic::div_mod::lemma_div_pos_is_pos(px, tile_size);
        vstd::arithmetic::div_mod::lemma_div_pos_is_pos(py, tile_size);
    }
    lemma_row_major(cols, rows, pr, pc);
    if k == pr * cols + pc {
        assert(col == pc && row == pr);
    }
}

} // verus!

verus! {

/// Rendering starts at the centre: the first tile of a non-empty grid lies
/// in ring 0, the ring of the central tiles.
pub proof fn lemma_render_starts_at_centre(
    tiles: Seq<Tile>,
    width: int,
    height: int,
    tile_size: int,
    cols: int,
    rows: int,
)
    requires
        checkerboard_tiles(tiles, width, height, tile_size, cols, rows),
        tiles.len() > 0,
        width >= 0,
        height >= 0,
        tile_size > 0,
    ensures
        ring(cols, rows, tiles[0].index as int) == 0,
{
    lemma_div_ceil_bounds(width, tile_size);
    lemma_div_ceil_bounds(height, tile_size);
    if cols == 0 || rows == 0 {
        assert(cols * rows == 0) by (nonlinear_arith)
            requires
                cols == 0 || rows == 0,
        ;
    }
    let c = cols / 2;
    let r = rows / 2;
    lemma_row_major(cols, rows, r, c);
    let k = r * cols + c;
    assert(has_tile(tiles, k));
    let i = choose|i: int| 0 <= i < tiles.len() && tiles[i].index == k;
    let a = centre_offset(c, cols);
    let b = centre_offset(r, rows);
    assert(0 <= a <= 1 && 0 <= b <= 1);
    assert(a * a <= 1 && b * b <= 1) by (nonlinear_arith)
        requires
            0 <= a <= 1,
            0 <= b <= 1,
    ;
    assert(dist4(cols, rows, k) / 4 == 0);
    assert(isqrt(0) == 0);
    assert(ring(cols, rows, k) == 0);
    if i > 0 {
        assert(ring(cols, rows, tiles[0].index as int) <= ring(cols, rows, tiles[i].index as int));
    }
}

} // verus!

verus! {

/// The cell holding a pixel of the covered length is a cell of the grid.
pub proof fn lemma_cell_in_grid(p: int, len: int, size: int)
    requires
        0 <= p < len,
        size > 0,
    ensures
        0 <= p / size < div_ceil(len, size),
{
    lemma_div_ceil_bounds(len, size);
    vstd::arithmetic::div_mod::lemma_fundamental_div_mod(p, size);
    vstd::arithmetic::div_mod::lemma_div_pos_is_pos(p, size);
    let q = p / size;
    assert(q < div_ceil(len, size)) by (nonlinear_arith)
        requires
            p == size * q + p % size,
            0 <= p % size,
            p < len,
            div_ceil(len, size) * size >= len,
            size > 0,
    ;
}

} // verus!
