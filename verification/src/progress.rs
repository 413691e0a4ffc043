//! The state of a render in flight: the iteration counts received so far,
//! which tiles are finished, and when the displayed texture is due for an
//! update.
use vstd::prelude::*;

use crate::tiles::{checkerboard_tiles, div_ceil, tiles_checkerboard, Tile};

verus! {

/// Smallest tile edge a render is cut into.
pub const MIN_TILE_SIZE: usize = 8;

/// Milliseconds after which received tiles are shown even if few arrived.
pub const TEXTURE_UPDATE_INTERVAL_MS: u64 = 33;

/// Number of received tiles after which the texture is refreshed.
pub const TEXTURE_UPDATE_STRIDE: usize = 4;

/// Row-major position of pixel `(px, py)` in a target `width` pixels wide.
pub open spec fn pixel_at(width: int, px: int, py: int) -> int {
    py * width + px
}

/// Two pixels of a target share a row-major position only if they are the
/// same pixel.
pub proof fn lemma_pixel_at_injective(width: int, px: int, py: int, qx: int, qy: int)
    requires
        0 <= px < width,
        0 <= qx < width,
        0 <= py,
        0 <= qy,
        pixel_at(width, px, py) == pixel_at(width, qx, qy),
    ensures
        px == qx,
        py == qy,
{
    vstd::arithmetic::div_mod::lemma_fundamental_div_mod_converse(pixel_at(width, px, py), width, py, px);
    vstd::arithmetic::div_mod::lemma_fundamental_div_mod_converse(pixel_at(width, qx, qy), width, qy, qx);
}

/// Iteration count of pixel `(px, py)` after the `w` x `h` block `block`
/// was copied into `iters` with its top-left corner at `(x, y)`.
pub open spec fn blitted(
    iters: Seq<u16>,
    width: int,
    x: int,
    y: int,
    w: int,
    h: int,
    block: Seq<u16>,
    px: int,
    py: int,
) -> u16 {
    if x <= px < x + w && y <= py < y + h {
        block[(py - y) * w + (px - x)]
    } else {
        iters[pixel_at(width, px, py)]
    }
}

/// The counts after the `w` x `h` block `block` was copied into the
/// row-major counts `iters` of a target `width` pixels wide, with its
/// top-left corner at `(x, y)`.
pub open spec fn blit(
    iters: Seq<u16>,
    width: int,
    x: int,
    y: int,
    w: int,
    h: int,
    block: Seq<u16>,
) -> Seq<u16> {
    Seq::new(
        iters.len(),
        |p: int| blitted(iters, width, x, y, w, h, block, p % width, p / width),
    )
}

/// Pixel `(px, py)` lies in the `w` x `h` rectangle with top-left corner `(x, y)`.
pub open spec fn in_rect(x: int, y: int, w: int, h: int, px: int, py: int) -> bool {
    x <= px < x + w && y <= py < y + h
}

/// Blocks that cover no common pixel can be copied in either order: the
/// workers may deliver the tiles of a render in any order.
pub proof fn lemma_disjoint_blits_commute(
    iters: Seq<u16>,
    width: int,
    x1: int,
    y1: int,
    w1: int,
    h1: int,
    b1: Seq<u16>,
    x2: int,
    y2: int,
    w2: int,
    h2: int,
    b2: Seq<u16>,
)
    requires
        width > 0,
        forall|px: int, py: int|
            !(#[trigger] in_rect(x1, y1, w1, h1, px, py) && in_rect(x2, y2, w2, h2, px, py)),
    ensures
        blit(blit(iters, width, x1, y1, w1, h1, b1), width, x2, y2, w2, h2, b2) == blit(
            blit(iters, width, x2, y2, w2, h2, b2),
            width,
            x1,
            y1,
            w1,
            h1,
            b1,
        ),
{
    let a = blit(iters, width, x1, y1, w1, h1, b1);
    let b = blit(iters, width, x2, y2, w2, h2, b2);
    let ab = blit(a, width, x2, y2, w2, h2, b2);
    let ba = blit(b, width, x1, y1, w1, h1, b1);
    assert forall|p: int| 0 <= p < ab.len() implies ab[p] == ba[p] by {
        let px = p % width;
        let py = p / width;
        vstd::arithmetic::div_mod::lemma_fundamental_div_mod(p, width);
        assert(pixel_at(width, px, py) == p) by (nonlinear_arith)
            requires
                p == width * (p / width) + p % width,
                px == p % width,
                py == p / width,
        ;
        assert(!(in_rect(x1, y1, w1, h1, px, py) && in_rect(x2, y2, w2, h2, px, py)));
    }
    assert(ab =~= ba);
}

/// What became of a tile that arrived.
#[derive(Clone, Copy, Debug, PartialEq, Eq, Structural)]
pub enum TilePlacement {
    /// The tile does not fit inside the target and was dropped.
    Outside,
    /// The tile was copied in; the texture is due for a refresh when
    /// `refresh_texture` holds.
    Placed { refresh_texture: bool },
}

/// A render in flight.
pub struct TileProgress {
    /// Target width in pixels.
    pub width: usize,
    /// Target height in pixels.
    pub height: usize,
    /// Iteration count of every pixel, row-major.
    pub iters: Vec<u16>,
    /// Which tiles, by row-major position, have arrived.
    pub tile_done: Vec<bool>,
    pub tile_cols: usize,
    pub tile_rows: usize,
    pub tile_size: usize,
    /// Tiles received since the texture was last refreshed.
    pub pending_tiles: usize,
    pub texture_update_interval_ms: u64,
    pub texture_update_stride: usize,
}

/// The tile size a render uses when `tile_size` is asked for: never less
/// than `MIN_TILE_SIZE`.
pub open spec fn render_tile_size(tile_size: usize) -> int {
    if tile_size >= MIN_TILE_SIZE {
        tile_size as int
    } else {
        MIN_TILE_SIZE as int
    }
}

/// A render uses the tile size asked for, unless that is below
/// `MIN_TILE_SIZE`, in which case it uses `MIN_TILE_SIZE`; so its tiles are
/// never smaller than `MIN_TILE_SIZE` and never larger than asked.
pub proof fn lemma_render_tile_size(tile_size: usize)
    ensures
        tile_size >= MIN_TILE_SIZE ==> render_tile_size(tile_size) == tile_size,
        tile_size < MIN_TILE_SIZE ==> render_tile_size(tile_size) == MIN_TILE_SIZE,
        render_tile_size(tile_size) >= MIN_TILE_SIZE,
        render_tile_size(tile_size) >= tile_size,
{
}

impl TileProgress {
    /// The buffers have the sizes of the target and of the tile grid.
    pub open spec fn wf(&self) -> bool {
        &&& self.iters@.len() == self.width * self.height
        &&& self.tile_done@.len() == self.tile_cols * self.tile_rows
        &&& (self.pending_tiles == 0 || self.pending_tiles < self.texture_update_stride)
    }

    /// Starts a render of a `width` x `height` target: tiles of at least
    /// `MIN_TILE_SIZE` pixels, all counts 0, no tile done, and the order in
    /// which the tiles are to be rendered.
    pub fn start(width: usize, height: usize, tile_size: usize) -> (r: (TileProgress, Vec<Tile>))
        requires
            width * height <= usize::MAX,
            div_ceil(width as int, render_tile_size(tile_size)) <= 0x1_0000_0000,
            div_ceil(height as int, render_tile_size(tile_size)) <= 0x1_0000_0000,
            div_ceil(width as int, render_tile_size(tile_size)) * div_ceil(
                height as int,
                render_tile_size(tile_size),
            ) <= usize::MAX,
        ensures
            r.0.wf(),
            r.0.width == width,
            r.0.height == height,
            r.0.tile_size == render_tile_size(tile_size),
            tile_size >= MIN_TILE_SIZE ==> r.0.tile_size == tile_size,
            tile_size < MIN_TILE_SIZE ==> r.0.tile_size == MIN_TILE_SIZE,
            r.0.tile_cols == div_ceil(width as int, r.0.tile_size as int),
            r.0.tile_rows == div_ceil(height as int, r.0.tile_size as int),
            r.1@.len() == r.0.tile_cols * r.0.tile_rows,
            forall|k: int| 0 <= k < r.0.iters@.len() ==> #[trigger] r.0.iters@[k] == 0,
            forall|k: int| 0 <= k < r.0.tile_done@.len() ==> !#[trigger] r.0.tile_done@[k],
            r.0.pending_tiles == 0,
            r.0.texture_update_interval_ms == TEXTURE_UPDATE_INTERVAL_MS,
            r.0.texture_update_stride == TEXTURE_UPDATE_STRIDE,
            checkerboard_tiles(
                r.1@,
                width as int,
                height as int,
                r.0.tile_size as int,
                r.0.tile_cols as int,
                r.0.tile_rows as int,
            ),
    {
        let size = if tile_size >= MIN_TILE_SIZE { tile_size } else { MIN_TILE_SIZE };
        let (tiles, cols, rows) = tiles_checkerboard(width, height, size);
        let iters = vec![0u16; width * height];
        let tile_done = vec![false; cols * rows];
        let progress = TileProgress {
            width,
            height,
            iters,
            tile_done,
            tile_cols: cols,
            tile_rows: rows,
            tile_size: size,
            pending_tiles: 0,
            texture_update_interval_ms: TEXTURE_UPDATE_INTERVAL_MS,
            texture_update_stride: TEXTURE_UPDATE_STRIDE,
        };
        (progress, tiles)
    }

    /// Takes in a finished tile: the `width` x `height` block of counts
    /// `tile_iters` for the tile at row-major position `index` with its
    /// top-left corner at `(x, y)`.
    ///
    /// A block that does not fit inside the target is dropped.  Otherwise
    /// its counts replace those of the pixels it covers, every other pixel
    /// keeps its count, the tile is marked done (if `index` is a position
    /// of the grid), and the texture is due for a refresh when enough tiles
    /// arrived since the last one, or `ms_since_texture_update` reached the
    /// update interval.
    pub fn accept_tile(
        &mut self,
        index: usize,
        x: usize,
        y: usize,
        width: usize,
        height: usize,
        tile_iters: &[u16],
        ms_since_texture_update: u128,
    ) -> (r: TilePlacement)
        requires
            old(self).wf(),
            x + width <= usize::MAX,
            y + height <= usize::MAX,
            x + width <= old(self).width && y + height <= old(self).height ==> width * height
                <= tile_iters@.len(),
        ensures
            final(self).wf(),
            final(self).width == old(self).width,
            final(self).height == old(self).height,
            final(self).tile_cols == old(self).tile_cols,
            final(self).tile_rows == old(self).tile_rows,
            final(self).tile_size == old(self).tile_size,
            final(self).texture_update_interval_ms == old(self).texture_update_interval_ms,
            final(self).texture_update_stride == old(self).texture_update_stride,
            !(x + width <= old(self).width && y + height <= old(self).height) ==> {
                &&& r == TilePlacement::Outside
                &&& final(self).iters@ == old(self).iters@
                &&& final(self).tile_done@ == old(self).tile_done@
                &&& final(self).pending_tiles == old(self).pending_tiles
            },
            x + width <= old(self).width && y + height <= old(self).height ==> {
                let due = old(self).pending_tiles + 1 >= old(self).texture_update_stride
                    || ms_since_texture_update >= old(self).texture_update_interval_ms;
                &&& r == TilePlacement::Placed { refresh_texture: due }
                &&& final(self).pending_tiles == if due { 0 } else { old(self).pending_tiles + 1 }
                &&& final(self).tile_done@ == if index < old(self).tile_done@.len() {
                    old(self).tile_done@.update(index as int, true)
                } else {
                    old(self).tile_done@
                }
                &&& final(self).iters@ == blit(
                    old(self).iters@,
                    old(self).width as int,
                    x as int,
                    y as int,
                    width as int,
                    height as int,
                    tile_iters@,
                )
                &&& forall|px: int, py: int|
                    0 <= px < old(self).width && 0 <= py < old(self).height
                        ==> #[trigger] final(self).iters@[pixel_at(old(self).width as int, px, py)]
                        == blitted(
                        old(self).iters@,
                        old(self).width as int,
                        x as int,
                        y as int,
                        width as int,
                        height as int,
                        tile_iters@,
                        px,
                        py,
                    )
            },
    {
        if !(x + width <= self.width && y + height <= self.height) {
            return TilePlacement::Outside;
        }
        let full_width = self.width;
        let ghost old_iters = self.iters@;
        let ghost full_height = self.height as int;
        assert(width * height <= tile_iters@.len());
        assert(self.iters@.len() == self.iters.len());
        assert(tile_iters@.len() == tile_iters.len());
        let mut row: usize = 0;
        while row < height
            invariant
                self.width == full_width,
                self.tile_done@ == old(self).tile_done@,
                self.tile_cols == old(self).tile_cols,
                self.tile_rows == old(self).tile_rows,
                self.tile_size == old(self).tile_size,
                self.pending_tiles == old(self).pending_tiles,
                self.texture_update_interval_ms == old(self).texture_update_interval_ms,
                self.texture_update_stride == old(self).texture_update_stride,
                old(self).wf(),
                old_iters.len() <= usize::MAX,
                tile_iters@.len() <= usize::MAX,
                self.iters@.len() == old_iters.len(),
                old_iters.len() == full_width * full_height,
                full_height == self.height,
                x + width <= full_width,
                y + height <= full_height,
                width * height <= tile_iters@.len(),
                row <= height,
                forall|px: int, py: int|
                    0 <= px < full_width && 0 <= py < full_height ==> #[trigger] self.iters@[pixel_at(
                        full_width as int,
                        px,
                        py,
                    )] == if x <= px < x + width && y <= py < y + row {
                        tile_iters@[(py - y) * width + (px - x)]
                    } else {
                        old_iters[pixel_at(full_width as int, px, py)]
                    },
            decreases height - row,
        {
            let mut col: usize = 0;
            while col < width
                invariant
                    self.width == full_width,
                    self.tile_done@ == old(self).tile_done@,
                    self.tile_cols == old(self).tile_cols,
                    self.tile_rows == old(self).tile_rows,
                    self.tile_size == old(self).tile_size,
                    self.pending_tiles == old(self).pending_tiles,
                    self.texture_update_interval_ms == old(self).texture_update_interval_ms,
                    self.texture_update_stride == old(self).texture_update_stride,
                    old(self).wf(),
                    old_iters.len() <= usize::MAX,
                    tile_iters@.len() <= usize::MAX,
                    self.iters@.len() == old_iters.len(),
                    old_iters.len() == full_width * full_height,
                    full_height == self.height,
                    x + width <= full_width,
                    y + height <= full_height,
                    width * height <= tile_iters@.len(),
                    row < height,
                    col <= width,
                    forall|px: int, py: int|
                        0 <= px < full_width && 0 <= py < full_height
                            ==> #[trigger] self.iters@[pixel_at(full_width as int, px, py)] == if x
                            <= px < x + width && (y <= py < y + row || (py == y + row && px < x
                            + col)) {
                            tile_iters@[(py - y) * width + (px - x)]
                        } else {
                            old_iters[pixel_at(full_width as int, px, py)]
                        },
                decreases width - col,
            {
                let ghost px0 = (x + col) as int;
                let ghost py0 = (y + row) as int;
                proof {
                    crate::tiles::lemma_row_major(full_width as int, full_height, py0, px0);
                    crate::tiles::lemma_row_major(width as int, height as int, row as int, col as int);
                    assert(full_width * full_height == full_height * full_width) by (nonlinear_arith);
                    assert(width * height == height * width) by (nonlinear_arith);
                }
                let dst = (y + row) * full_width + (x + col);
                let src = row * width + col;
                let v = tile_iters[src];
                let ghost before = self.iters@;
                self.iters.set(dst, v);
                assert forall|px: int, py: int|
                    0 <= px < full_width && 0 <= py < full_height implies #[trigger] self.iters@[pixel_at(
                    full_width as int,
                    px,
                    py,
                )] == if x <= px < x + width && (y <= py < y + row || (py == y + row && px < x + col
                    + 1)) {
                    tile_iters@[(py - y) * width + (px - x)]
                } else {
                    old_iters[pixel_at(full_width as int, px, py)]
                } by {
                    crate::tiles::lemma_row_major(full_width as int, full_height, py, px);
                    if px == px0 && py == py0 {
                        assert(pixel_at(full_width as int, px, py) == dst);
                    } else {
                        if pixel_at(full_width as int, px, py) == dst as int {
                            lemma_pixel_at_injective(full_width as int, px, py, px0, py0);
                        }
                        assert(before[pixel_at(full_width as int, px, py)] == self.iters@[pixel_at(
                            full_width as int,
                            px,
                            py,
                        )]);
                    }
                }
                col = col + 1;
            }
            row = row + 1;
        }
        proof {
            let b = blit(old_iters, full_width as int, x as int, y as int, width as int, height as int, tile_iters@);
            assert forall|p: int| 0 <= p < self.iters@.len() implies self.iters@[p] == b[p] by {
                assert(full_width > 0) by {
                    if full_width == 0 {
                        assert(full_width * full_height == 0) by (nonlinear_arith)
                            requires
                                full_width == 0,
                        ;
                    }
                }
                let px = p % (full_width as int);
                let py = p / (full_width as int);
                vstd::arithmetic::div_mod::lemma_fundamental_div_mod(p, full_width as int);
                assert(pixel_at(full_width as int, px, py) == p) by (nonlinear_arith)
                    requires
                        p == full_width * (p / (full_width as int)) + p % (full_width as int),
                        px == p % (full_width as int),
                        py == p / (full_width as int),
                ;
                assert(0 <= py < full_height) by {
                    if py >= full_height {
                        assert(full_width * py >= full_width * full_height) by (nonlinear_arith)
                            requires
                                py >= full_height,
                                full_width > 0,
                        ;
                    }
                }
            }
            assert(self.iters@ =~= b);
        }
        if index < self.tile_done.len() {
            self.tile_done.set(index, true);
        }
        let due = self.pending_tiles + 1 >= self.texture_update_stride
            || ms_since_texture_update >= self.texture_update_interval_ms as u128;
        if due {
            self.pending_tiles = 0;
        } else {
            self.pending_tiles = self.pending_tiles + 1;
        }
        TilePlacement::Placed { refresh_texture: due }
    }

    /// Notes that the texture was refreshed outside a tile arrival.
    pub fn texture_refreshed(&mut self)
        requires
            old(self).wf(),
        ensures
            final(self).wf(),
            final(self).pending_tiles == 0,
            final(self).width == old(self).width,
            final(self).height == old(self).height,
            final(self).iters@ == old(self).iters@,
            final(self).tile_done@ == old(self).tile_done@,
            final(self).tile_cols == old(self).tile_cols,
            final(self).tile_rows == old(self).tile_rows,
            final(self).tile_size == old(self).tile_size,
            final(self).texture_update_interval_ms == old(self).texture_update_interval_ms,
            final(self).texture_update_stride == old(self).texture_update_stride,
    {
        self.pending_tiles = 0;
    }
}

} // verus!
