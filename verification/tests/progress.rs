use fractal_explorer::progress::{TilePlacement, TileProgress};

#[test]
fn start_uses_at_least_eight_pixel_tiles() {
    let (p, tiles) = TileProgress::start(20, 10, 4);
    assert_eq!(p.tile_size, 8);
    assert_eq!((p.tile_cols, p.tile_rows), (3, 2));
    assert_eq!(tiles.len(), 6);
    assert_eq!(p.iters, vec![0u16; 200]);
    assert_eq!(p.tile_done, vec![false; 6]);
    assert_eq!(p.pending_tiles, 0);
    assert_eq!(p.texture_update_interval_ms, 33);
    assert_eq!(p.texture_update_stride, 4);
}

#[test]
fn placed_tile_is_read_back() {
    let (mut p, _) = TileProgress::start(4, 3, 8);
    let block = vec![1u16, 2, 3, 4];
    let r = p.accept_tile(0, 1, 1, 2, 2, &block, 0);
    assert_eq!(r, TilePlacement::Placed { refresh_texture: false });
    assert_eq!(
        p.iters,
        vec![
            0, 0, 0, 0, //
            0, 1, 2, 0, //
            0, 3, 4, 0,
        ]
    );
    assert_eq!(p.tile_done, vec![true]);
    assert_eq!(p.pending_tiles, 1);
}

#[test]
fn tile_outside_is_dropped() {
    let (mut p, _) = TileProgress::start(4, 3, 8);
    let r = p.accept_tile(0, 3, 0, 2, 1, &[9, 9], 0);
    assert_eq!(r, TilePlacement::Outside);
    assert_eq!(p.iters, vec![0u16; 12]);
    assert_eq!(p.tile_done, vec![false]);
}

#[test]
fn texture_refresh_every_fourth_tile_or_when_late() {
    let (mut p, _) = TileProgress::start(16, 16, 8);
    let block = vec![5u16; 64];
    let mut due = Vec::new();
    for i in 0..4 {
        let x = (i % 2) * 8;
        let y = (i / 2) * 8;
        match p.accept_tile(i, x, y, 8, 8, &block, 1) {
            TilePlacement::Placed { refresh_texture } => due.push(refresh_texture),
            TilePlacement::Outside => panic!("tile fits"),
        }
    }
    assert_eq!(due, vec![false, false, false, true]);
    assert_eq!(p.pending_tiles, 0);
    assert_eq!(
        p.accept_tile(0, 0, 0, 8, 8, &block, 33),
        TilePlacement::Placed { refresh_texture: true }
    );
    assert_eq!(p.tile_done, vec![true; 4]);
}

#[test]
fn out_of_grid_index_marks_nothing() {
    let (mut p, _) = TileProgress::start(8, 8, 8);
    p.accept_tile(5, 0, 0, 1, 1, &[3], 0);
    assert_eq!(p.tile_done, vec![false]);
    assert_eq!(p.iters[0], 3);
    p.texture_refreshed();
    assert_eq!(p.pending_tiles, 0);
}

#[test]
fn tiles_may_arrive_in_any_order() {
    let (mut a, tiles) = TileProgress::start(20, 12, 8);
    let (mut b, _) = TileProgress::start(20, 12, 8);
    let blocks: Vec<Vec<u16>> = tiles
        .iter()
        .map(|t| (0..t.width * t.height).map(|v| (v + 100 * t.index) as u16).collect())
        .collect();
    for (t, blk) in tiles.iter().zip(&blocks) {
        a.accept_tile(t.index, t.x, t.y, t.width, t.height, blk, 0);
    }
    for (t, blk) in tiles.iter().zip(&blocks).rev() {
        b.accept_tile(t.index, t.x, t.y, t.width, t.height, blk, 0);
    }
    assert_eq!(a.iters, b.iters);
    assert_eq!(a.tile_done, vec![true; 6]);
    // Pixel (9, 8) lies in tile 4 (column 1, row 1) at offset (1, 0).
    assert_eq!(a.iters[8 * 20 + 9], 401);
}
