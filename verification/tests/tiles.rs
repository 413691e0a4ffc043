use fractal_explorer::tiles::{tile_layout, tiles_checkerboard, Tile};

/// The tile order from single-precision distances and stable sorts.
fn float_order(width: usize, height: usize, tile_size: usize) -> (Vec<Tile>, usize, usize) {
    let cols = (width + tile_size - 1) / tile_size;
    let rows = (height + tile_size - 1) / tile_size;
    let mut rings: Vec<(Vec<(f32, Tile)>, Vec<(f32, Tile)>)> = Vec::new();
    let center_x = (cols as f32) * 0.5;
    let center_y = (rows as f32) * 0.5;
    let mut max_ring = 0usize;
    for row in 0..rows {
        for col in 0..cols {
            let x = col * tile_size;
            let y = row * tile_size;
            let dx = col as f32 + 0.5 - center_x;
            let dy = row as f32 + 0.5 - center_y;
            let dist = (dx * dx + dy * dy).sqrt();
            let ring = dist.floor() as usize;
            if ring > max_ring {
                max_ring = ring;
            }
            if rings.len() <= ring {
                rings.resize_with(ring + 1, || (Vec::new(), Vec::new()));
            }
            let tile = Tile {
                index: row * cols + col,
                x,
                y,
                width: tile_size.min(width.saturating_sub(x)),
                height: tile_size.min(height.saturating_sub(y)),
            };
            if (row + col) % 2 == 0 {
                rings[ring].0.push((dist, tile));
            } else {
                rings[ring].1.push((dist, tile));
            }
        }
    }
    let mut tiles = Vec::new();
    let seed = 3usize.min(max_ring);
    for ring in 0..=max_ring {
        if ring >= rings.len() {
            break;
        }
        let (even, odd) = &mut rings[ring];
        even.sort_by(|a, b| a.0.partial_cmp(&b.0).unwrap());
        odd.sort_by(|a, b| a.0.partial_cmp(&b.0).unwrap());
        if ring <= seed {
            let mut merged: Vec<(f32, Tile)> = Vec::new();
            merged.extend(even.iter().cloned());
            merged.extend(odd.iter().cloned());
            merged.sort_by(|a, b| a.0.partial_cmp(&b.0).unwrap());
            tiles.extend(merged.into_iter().map(|e| e.1));
        } else {
            tiles.extend(even.iter().map(|e| e.1));
            tiles.extend(odd.iter().map(|e| e.1));
        }
    }
    (tiles, cols, rows)
}

#[test]
fn layout_rounds_up() {
    assert_eq!(tile_layout(100, 50, 64), (2, 1));
    assert_eq!(tile_layout(128, 128, 64), (2, 2));
    assert_eq!(tile_layout(0, 10, 8), (0, 2));
    assert_eq!(tile_layout(1, 1, 8), (1, 1));
    assert_eq!(tile_layout(usize::MAX, 1, 2), (usize::MAX / 2 + 1, 1));
}

#[test]
fn two_by_two_goes_black_squares_first() {
    let (tiles, cols, rows) = tiles_checkerboard(128, 128, 64);
    assert_eq!((cols, rows), (2, 2));
    let order: Vec<usize> = tiles.iter().map(|t| t.index).collect();
    assert_eq!(order, vec![0, 3, 1, 2]);
    assert_eq!(tiles[1], Tile { index: 3, x: 64, y: 64, width: 64, height: 64 });
}

#[test]
fn border_tiles_are_cut_to_the_target() {
    let (tiles, cols, rows) = tiles_checkerboard(100, 70, 64);
    assert_eq!((cols, rows), (2, 2));
    let last = tiles.iter().find(|t| t.index == 3).unwrap();
    assert_eq!(*last, Tile { index: 3, x: 64, y: 64, width: 36, height: 6 });
}

#[test]
fn targets_wider_than_u32_are_tiled() {
    if usize::BITS < 64 {
        return;
    }
    let wide: usize = 1 << 32;
    let (tiles, cols, rows) = tiles_checkerboard(wide, 1, wide);
    assert_eq!((cols, rows), (1, 1));
    assert_eq!(tiles, vec![Tile { index: 0, x: 0, y: 0, width: wide, height: 1 }]);
    let (tiles, cols, rows) = tiles_checkerboard(wide + 5, 3, wide);
    assert_eq!((cols, rows), (2, 1));
    let mut cover: Vec<(usize, usize, usize)> = tiles.iter().map(|t| (t.index, t.x, t.width)).collect();
    cover.sort();
    assert_eq!(cover, vec![(0, 0, wide), (1, wide, 5)]);
    assert!(tiles.iter().all(|t| t.y == 0 && t.height == 3));
}

#[test]
fn empty_target_has_no_tiles() {
    let (tiles, cols, rows) = tiles_checkerboard(0, 480, 64);
    assert_eq!((tiles.len(), cols, rows), (0, 0, 8));
}

#[test]
fn matches_float_order_on_screen_sizes() {
    for &(w, h, ts) in &[
        (1920usize, 1080usize, 64usize),
        (1280, 720, 16),
        (672, 378, 64),
        (800, 600, 8),
        (333, 999, 37),
        (64, 64, 64),
        (3840, 2160, 128),
        (1, 1, 8),
        (640, 8, 8),
    ] {
        let got = tiles_checkerboard(w, h, ts);
        let want = float_order(w, h, ts);
        assert_eq!(got, want, "size {}x{} tile {}", w, h, ts);
    }
}

#[test]
fn every_tile_once_and_centre_first() {
    let (tiles, cols, rows) = tiles_checkerboard(1000, 700, 50);
    assert_eq!(tiles.len(), cols * rows);
    let mut seen = vec![false; cols * rows];
    for t in &tiles {
        assert!(!seen[t.index]);
        seen[t.index] = true;
    }
    let c = (tiles[0].index % cols, tiles[0].index / cols);
    // Of the four central tiles, the black one nearest the top left.
    assert_eq!(c, (cols / 2, rows / 2 - 1));
}

#[test]
fn tiles_cover_every_pixel_once() {
    let (w, h, ts) = (150usize, 90usize, 32usize);
    let (tiles, _, _) = tiles_checkerboard(w, h, ts);
    let mut hits = vec![0u8; w * h];
    for t in &tiles {
        for y in t.y..t.y + t.height {
            for x in t.x..t.x + t.width {
                hits[y * w + x] += 1;
            }
        }
    }
    assert!(hits.iter().all(|&n| n == 1));
}
