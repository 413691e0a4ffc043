use fractal_explorer::palette::{
    clamp_colorscheme, colorschemes, generate_colors, next_colorscheme, palette_index,
    palette_plan, PaletteEntry, Rgba,
};

fn rgb(r: u8, g: u8, b: u8) -> Rgba {
    Rgba { r, g, b, a: 255 }
}

#[test]
fn five_schemes_with_their_names() {
    let schemes = colorschemes();
    let names: Vec<&str> = schemes.iter().map(|s| s.name).collect();
    assert_eq!(names, vec!["Midnight Garden", "Lagoon Pulse", "Aurora", "Inferno", "Redis"]);
    let sizes: Vec<usize> = schemes.iter().map(|s| s.colors.len()).collect();
    assert_eq!(sizes, vec![4, 7, 8, 10, 7]);
    assert_eq!(schemes[0].colors[0], rgb(21, 29, 59));
    assert_eq!(schemes[3].colors[9], rgb(252, 255, 164));
    assert_eq!(schemes[4].colors[6], rgb(252, 236, 232));
}

#[test]
fn default_palette_has_an_entry_per_iteration() {
    // 4 key colours, 55 iterations: 3 segments of 18 blends, then black.
    let p = generate_colors(0, 55);
    assert_eq!(p.len(), 56);
    assert_eq!(
        p[0],
        PaletteEntry::Blend { from: rgb(21, 29, 59), to: rgb(216, 33, 72), step: 0, steps: 18 }
    );
    assert_eq!(
        p[19],
        PaletteEntry::Blend { from: rgb(216, 33, 72), to: rgb(110, 191, 139), step: 1, steps: 18 }
    );
    assert_eq!(
        p[53],
        PaletteEntry::Blend { from: rgb(110, 191, 139), to: rgb(218, 219, 189), step: 17, steps: 18 }
    );
    assert_eq!(p[54], PaletteEntry::Black);
    assert_eq!(p[55], PaletteEntry::Black);
}

#[test]
fn regenerating_a_palette_gives_the_same_palette() {
    for scheme in 0..5 {
        for max_iter in [0, 1, 7, 55, 300] {
            assert_eq!(generate_colors(scheme, max_iter), generate_colors(scheme, max_iter));
        }
    }
}

#[test]
fn few_iterations_give_a_black_palette() {
    // Fewer iterations than segments: no blend at all.
    let p = generate_colors(3, 5);
    assert_eq!(p, vec![PaletteEntry::Black; 6]);
}

#[test]
fn zero_iterations_give_one_entry() {
    let p = palette_plan(&vec![rgb(0, 0, 0), rgb(255, 255, 255)], 0);
    assert_eq!(p, vec![PaletteEntry::Black]);
}

#[test]
fn exact_multiple_leaves_one_black() {
    let p = palette_plan(&vec![rgb(0, 0, 0), rgb(10, 10, 10), rgb(20, 20, 20)], 4);
    assert_eq!(p.len(), 5);
    assert_eq!(
        p[3],
        PaletteEntry::Blend { from: rgb(10, 10, 10), to: rgb(20, 20, 20), step: 1, steps: 2 }
    );
    assert_eq!(p[4], PaletteEntry::Black);
}

#[test]
fn palette_index_caps_at_last_entry() {
    assert_eq!(palette_index(3, 56), 3);
    assert_eq!(palette_index(55, 56), 55);
    assert_eq!(palette_index(900, 56), 55);
    assert_eq!(palette_index(7, 0), 0);
}

#[test]
fn scheme_cycle_returns_to_start() {
    let mut s = 2usize;
    let mut visited = Vec::new();
    for _ in 0..5 {
        s = next_colorscheme(s, 5);
        visited.push(s);
    }
    assert_eq!(visited, vec![3, 4, 0, 1, 2]);
    assert_eq!(next_colorscheme(7, 5), 0);
}

#[test]
fn stored_scheme_is_clamped() {
    assert_eq!(clamp_colorscheme(2, 5), 2);
    assert_eq!(clamp_colorscheme(9, 5), 4);
    assert_eq!(clamp_colorscheme(9, 0), 0);
}
