use fractal_explorer::pixels::{masked_palette_indices, palette_indices, rgba_to_rgb, stored_iterations};

#[test]
fn indices_follow_counts_capped() {
    let iters = vec![0u16, 5, 9, 100, 2, 3];
    let r = palette_indices(&iters, 3, 2, 10);
    assert_eq!(r, vec![0, 5, 9, 9, 2, 3]);
}

#[test]
fn indices_ignore_extra_counts() {
    let iters = vec![1u16, 2, 3, 4, 5];
    assert_eq!(palette_indices(&iters, 2, 2, 56), vec![1, 2, 3, 4]);
}

#[test]
fn only_finished_tiles_show() {
    // 4x4 target, 2x2 tiles of 2 pixels; tiles 0 and 3 are finished.
    let iters: Vec<u16> = (0..16).collect();
    let done = vec![true, false, false, true];
    let r = masked_palette_indices(&iters, 4, 4, 100, &done, 2, 2, 2);
    let shown: Vec<bool> = r.iter().map(|p| p.is_some()).collect();
    let want = vec![
        true, true, false, false, //
        true, true, false, false, //
        false, false, true, true, //
        false, false, true, true,
    ];
    assert_eq!(shown, want);
    assert_eq!(r[0], Some(0));
    assert_eq!(r[15], Some(15));
    assert_eq!(r[2], None);
}

#[test]
fn short_done_list_hides_the_rest() {
    let iters = vec![7u16; 6];
    let r = masked_palette_indices(&iters, 3, 2, 5, &[true], 3, 2, 1);
    assert_eq!(r, vec![Some(4), None, None, None, None, None]);
}

#[test]
fn zero_tile_size_shows_nothing() {
    let r = masked_palette_indices(&[1, 2], 2, 1, 5, &[true], 1, 1, 0);
    assert_eq!(r, vec![None, None]);
}

#[test]
fn alpha_is_dropped() {
    let rgba = vec![1u8, 2, 3, 4, 5, 6, 7, 8, 9];
    assert_eq!(rgba_to_rgb(&rgba), vec![1, 2, 3, 5, 6, 7]);
    assert_eq!(rgba_to_rgb(&[]), Vec::<u8>::new());
}

#[test]
fn iteration_counts_saturate() {
    assert_eq!(stored_iterations(55), 55);
    assert_eq!(stored_iterations(65535), 65535);
    assert_eq!(stored_iterations(70000), 65535);
}

#[test]
fn finished_render_shows_everything() {
    let iters: Vec<u16> = (0..35).collect();
    let r = masked_palette_indices(&iters, 7, 5, 40, &[true; 4], 2, 2, 4);
    assert!(r.iter().all(|p| p.is_some()));
    assert_eq!(r[34], Some(34));
}
