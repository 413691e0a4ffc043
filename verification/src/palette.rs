//! The colour schemes and the palettes built from them.
use vstd::prelude::*;

use crate::tiles::{sat_sub, smaller};

verus! {

/// An 8-bit RGBA colour.
#[derive(Clone, Copy, Debug, PartialEq, Eq, Structural)]
pub struct Rgba {
    pub r: u8,
    pub g: u8,
    pub b: u8,
    pub a: u8,
}

/// The colour with the given channels.
pub open spec fn rgba(r: u8, g: u8, b: u8, a: u8) -> Rgba {
    Rgba { r, g, b, a }
}

/// A named list of key colours; palettes blend between consecutive ones.
#[derive(Clone, Debug)]
pub struct ColorScheme {
    pub name: &'static str,
    pub colors: Vec<Rgba>,
}

/// Number of built-in colour schemes.
pub open spec fn scheme_count() -> int {
    5
}

/// Name of built-in colour scheme `i`.
pub open spec fn scheme_name(i: int) -> Seq<char> {
    if i == 0 {
        "Midnight Garden"@
    } else if i == 1 {
        "Lagoon Pulse"@
    } else if i == 2 {
        "Aurora"@
    } else if i == 3 {
        "Inferno"@
    } else if i == 4 {
        "Redis"@
    } else {
        Seq::empty()
    }
}

/// Key colours of built-in colour scheme `i`.
pub open spec fn scheme_colors(i: int) -> Seq<Rgba> {
    if i == 0 {
        seq![
            rgba(21, 29, 59, 255),
            rgba(216, 33, 72, 255),
            rgba(110, 191, 139, 255),
            rgba(218, 219, 189, 255),
        ]
    } else if i == 1 {
        seq![
            rgba(1, 21, 38, 255),
            rgba(136, 247, 226, 255),
            rgba(68, 212, 146, 255),
            rgba(255, 161, 92, 255),
            rgba(245, 235, 103, 255),
            rgba(250, 35, 62, 255),
            rgba(217, 7, 84, 255),
        ]
    } else if i == 2 {
        seq![
            rgba(17, 5, 44, 255),
            rgba(61, 8, 123, 255),
            rgba(244, 59, 134, 255),
            rgba(255, 228, 89, 255),
            rgba(81, 45, 109, 255),
            rgba(248, 72, 94, 255),
            rgba(238, 238, 238, 255),
            rgba(0, 193, 212, 255),
        ]
    } else if i == 3 {
        seq![
            rgba(0, 0, 4, 255),
            rgba(27, 12, 65, 255),
            rgba(74, 12, 107, 255),
            rgba(120, 28, 109, 255),
            rgba(165, 44, 96, 255),
            rgba(207, 68, 70, 255),
            rgba(237, 105, 37, 255),
            rgba(251, 155, 6, 255),
            rgba(247, 209, 61, 255),
            rgba(252, 255, 164, 255),
        ]
    } else if i == 4 {
        seq![
            rgba(22, 22, 22, 255),
            rgba(64, 64, 64, 255),
            rgba(151, 44, 31, 255),
            rgba(213, 45, 33, 255),
            rgba(240, 79, 61, 255),
            rgba(248, 178, 165, 255),
            rgba(252, 236, 232, 255),
        ]
    } else {
        Seq::empty()
    }
}

/// The built-in colour schemes, in menu order.
pub fn colorschemes() -> (r: Vec<ColorScheme>)
    ensures
        r.len() == scheme_count(),
        forall|i: int|
            0 <= i < r.len() ==> (#[trigger] r[i]).name@ == scheme_name(i) && r[i].colors@
                == scheme_colors(i),
{
    let r = vec![
        ColorScheme {
            name: "Midnight Garden",
            colors: vec![
                Rgba { r: 21, g: 29, b: 59, a: 255 },
                Rgba { r: 216, g: 33, b: 72, a: 255 },
                Rgba { r: 110, g: 191, b: 139, a: 255 },
                Rgba { r: 218, g: 219, b: 189, a: 255 },
            ],
        },
        ColorScheme {
            name: "Lagoon Pulse",
            colors: vec![
                Rgba { r: 1, g: 21, b: 38, a: 255 },
                Rgba { r: 136, g: 247, b: 226, a: 255 },
                Rgba { r: 68, g: 212, b: 146, a: 255 },
                Rgba { r: 255, g: 161, b: 92, a: 255 },
                Rgba { r: 245, g: 235, b: 103, a: 255 },
                Rgba { r: 250, g: 35, b: 62, a: 255 },
                Rgba { r: 217, g: 7, b: 84, a: 255 },
            ],
        },
        ColorScheme {
            name: "Aurora",
            colors: vec![
                Rgba { r: 17, g: 5, b: 44, a: 255 },
                Rgba { r: 61, g: 8, b: 123, a: 255 },
                Rgba { r: 244, g: 59, b: 134, a: 255 },
                Rgba { r: 255, g: 228, b: 89, a: 255 },
                Rgba { r: 81, g: 45, b: 109, a: 255 },
                Rgba { r: 248, g: 72, b: 94, a: 255 },
                Rgba { r: 238, g: 238, b: 238, a: 255 },
                Rgba { r: 0, g: 193, b: 212, a: 255 },
            ],
        },
        ColorScheme {
            name: "Inferno",
            colors: vec![
                Rgba { r: 0, g: 0, b: 4, a: 255 },
                Rgba { r: 27, g: 12, b: 65, a: 255 },
                Rgba { r: 74, g: 12, b: 107, a: 255 },
                Rgba { r: 120, g: 28, b: 109, a: 255 },
                Rgba { r: 165, g: 44, b: 96, a: 255 },
                Rgba { r: 207, g: 68, b: 70, a: 255 },
                Rgba { r: 237, g: 105, b: 37, a: 255 },
                Rgba { r: 251, g: 155, b: 6, a: 255 },
                Rgba { r: 247, g: 209, b: 61, a: 255 },
                Rgba { r: 252, g: 255, b: 164, a: 255 },
            ],
        },
        ColorScheme {
            name: "Redis",
            colors: vec![
                Rgba { r: 22, g: 22, b: 22, a: 255 },
                Rgba { r: 64, g: 64, b: 64, a: 255 },
                Rgba { r: 151, g: 44, b: 31, a: 255 },
                Rgba { r: 213, g: 45, b: 33, a: 255 },
                Rgba { r: 240, g: 79, b: 61, a: 255 },
                Rgba { r: 248, g: 178, b: 165, a: 255 },
                Rgba { r: 252, g: 236, b: 232, a: 255 },
            ],
        },
    ];
    r
}

} // verus!

verus! {

/// One colour of a palette, before it is turned into a floating-point colour.
#[derive(Clone, Copy, Debug, PartialEq, Eq, Structural)]
pub enum PaletteEntry {
    /// The colour `step / steps` of the way from `from` to `to`.
    Blend { from: Rgba, to: Rgba, step: usize, steps: usize },
    /// Opaque black, for iteration counts past the blended part.
    Black,
}

/// Number of palette colours blended between two consecutive key colours.
pub open spec fn blend_steps(key_colors: int, max_iter: int) -> int {
    max_iter / (key_colors - 1)
}

/// Palette entry `k` for the key colours `colors` and `max_iter` iterations.
///
/// The first `(colors.len() - 1) * steps` entries walk through the key
/// colours, `steps` entries per pair of consecutive colours, where `steps`
/// is `max_iter / (colors.len() - 1)`; the remaining ones are black.
pub open spec fn palette_entry(colors: Seq<Rgba>, max_iter: int, k: int) -> PaletteEntry {
    let steps = blend_steps(colors.len() as int, max_iter);
    if k < (colors.len() - 1) * steps {
        PaletteEntry::Blend {
            from: colors[k / steps],
            to: colors[k / steps + 1],
            step: (k % steps) as usize,
            steps: steps as usize,
        }
    } else {
        PaletteEntry::Black
    }
}

/// `p` is the palette for the key colours `colors` and `max_iter`
/// iterations: one entry for every iteration count from 0 to `max_iter`,
/// as `palette_entry` describes.
pub open spec fn is_palette_of(p: Seq<PaletteEntry>, colors: Seq<Rgba>, max_iter: int) -> bool {
    &&& p.len() == max_iter + 1
    &&& forall|k: int| 0 <= k < p.len() ==> #[trigger] p[k] == palette_entry(colors, max_iter, k)
}

/// A palette is determined by its key colours and iteration limit: building
/// it again from the same colours and limit gives the same palette.
pub proof fn lemma_palette_determined(
    p: Seq<PaletteEntry>,
    q: Seq<PaletteEntry>,
    colors: Seq<Rgba>,
    max_iter: int,
)
    requires
        is_palette_of(p, colors, max_iter),
        is_palette_of(q, colors, max_iter),
    ensures
        p == q,
{
    assert(p =~= q);
}

/// Builds the palette for the key colours `colors` and `max_iter` iterations.
///
/// The palette has one entry for every iteration count from 0 to
/// `max_iter`, as `palette_entry` describes.
pub fn palette_plan(colors: &Vec<Rgba>, max_iter: usize) -> (p: Vec<PaletteEntry>)
    requires
        colors.len() >= 2,
        max_iter < usize::MAX,
    ensures
        is_palette_of(p@, colors@, max_iter as int),
{
    let segments = colors.len() - 1;
    let steps = max_iter / segments;
    let ghost blended = segments * steps;
    proof {
        vstd::arithmetic::div_mod::lemma_fundamental_div_mod(max_iter as int, segments as int);
        assert(segments * steps == segments * (max_iter / segments));
        assert(segments * steps <= max_iter) by (nonlinear_arith)
            requires
                max_iter == segments * steps + max_iter % segments,
                max_iter % segments >= 0,
        ;
    }
    let mut p: Vec<PaletteEntry> = Vec::new();
    let mut i: usize = 0;
    while i < segments
        invariant
            segments == colors.len() - 1,
            steps == blend_steps(colors.len() as int, max_iter as int),
            segments * steps <= max_iter,
            i <= segments,
            p.len() == i * steps,
            forall|k: int| 0 <= k < p.len() ==> #[trigger] p[k] == palette_entry(colors@, max_iter as int, k),
        decreases segments - i,
    {
        let mut j: usize = 0;
        assert(i * steps + steps <= segments * steps) by (nonlinear_arith)
            requires
                i < segments,
                steps >= 0,
        ;
        while j < steps
            invariant
                segments == colors.len() - 1,
                steps == blend_steps(colors.len() as int, max_iter as int),
                segments * steps <= max_iter,
                i < segments,
                i * steps + steps <= segments * steps,
                j <= steps,
                p.len() == i * steps + j,
                forall|k: int| 0 <= k < p.len() ==> #[trigger] p[k] == palette_entry(colors@, max_iter as int, k),
            decreases steps - j,
        {
            proof {
                let k = i * steps + j;
                vstd::arithmetic::div_mod::lemma_fundamental_div_mod_converse(k as int, steps as int, i as int, j as int);
            }
            p.push(PaletteEntry::Blend { from: colors[i], to: colors[i + 1], step: j, steps });
            j = j + 1;
        }
        assert((i + 1) * steps == i * steps + steps) by (nonlinear_arith);
        i = i + 1;
    }
    while p.len() <= max_iter
        invariant
            segments == colors.len() - 1,
            steps == blend_steps(colors.len() as int, max_iter as int),
            segments * steps <= p.len() <= max_iter + 1,
            max_iter < usize::MAX,
            forall|k: int| 0 <= k < p.len() ==> #[trigger] p[k] == palette_entry(colors@, max_iter as int, k),
        decreases max_iter + 1 - p.len(),
    {
        p.push(PaletteEntry::Black);
    }
    p
}

/// The palette of built-in colour scheme `colorscheme` for `max_iter`
/// iterations: one entry per iteration count from 0 to `max_iter`.
pub fn generate_colors(colorscheme: usize, max_iter: usize) -> (p: Vec<PaletteEntry>)
    requires
        colorscheme < scheme_count(),
        max_iter < usize::MAX,
    ensures
        is_palette_of(p@, scheme_colors(colorscheme as int), max_iter as int),
{
    let schemes = colorschemes();
    let scheme = &schemes[colorscheme];
    assert(scheme.colors@.len() >= 2) by {
        reveal_with_fuel(scheme_colors, 1);
    }
    palette_plan(&scheme.colors, max_iter)
}

/// Position in a palette of `palette_len` colours used for an iteration
/// count: the count, capped at the last position.
pub fn palette_index(iter: u16, palette_len: usize) -> (r: usize)
    ensures
        r == smaller(iter as int, sat_sub(palette_len as int, 1)),
{
    let max_index = palette_len.saturating_sub(1);
    let it = iter as usize;
    if it <= max_index {
        it
    } else {
        max_index
    }
}

/// The colour scheme after `current` when stepping through `count` schemes,
/// wrapping round to the first.
pub open spec fn following_scheme(current: int, count: int) -> int {
    if current + 1 >= count {
        0
    } else {
        current + 1
    }
}

/// Steps to the next colour scheme, wrapping round after the last one.
pub fn next_colorscheme(current: usize, count: usize) -> (r: usize)
    requires
        current < usize::MAX,
    ensures
        r == following_scheme(current as int, count as int),
{
    let next = current + 1;
    if next >= count {
        0
    } else {
        next
    }
}

/// The scheme reached from `start` after `steps` steps.
pub open spec fn scheme_after(start: int, count: int, steps: nat) -> int
    decreases steps,
{
    if steps == 0 {
        start
    } else {
        following_scheme(scheme_after(start, count, (steps - 1) as nat), count)
    }
}

/// Stepping through the colour schemes visits them in a cycle: from a valid
/// scheme, `steps` steps land on scheme `(start + steps) % count`, so
/// `count` steps come back to the start.
pub proof fn lemma_colorscheme_cycle(start: int, count: int, steps: nat)
    requires
        0 <= start < count,
    ensures
        scheme_after(start, count, steps) == (start + steps) % count,
    decreases steps,
{
    if steps == 0 {
        vstd::arithmetic::div_mod::lemma_small_mod(start as nat, count as nat);
    } else {
        lemma_colorscheme_cycle(start, count, (steps - 1) as nat);
        let prev = (start + steps - 1) % count;
        vstd::arithmetic::div_mod::lemma_fundamental_div_mod(start + steps - 1, count);
        let q = (start + steps - 1) / count;
        assert(count * q == q * count) by (nonlinear_arith);
        assert((q + 1) * count == q * count + count) by (nonlinear_arith);
        if prev + 1 >= count {
            vstd::arithmetic::div_mod::lemma_fundamental_div_mod_converse(start + steps, count, q + 1, 0);
        } else {
            vstd::arithmetic::div_mod::lemma_fundamental_div_mod_converse(start + steps, count, q, prev + 1);
        }
    }
}

/// A stored colour scheme index, capped at the last of `count` schemes.
pub fn clamp_colorscheme(index: usize, count: usize) -> (r: usize)
    ensures
        r == smaller(index as int, sat_sub(count as int, 1)),
{
    let last = count.saturating_sub(1);
    if index <= last {
        index
    } else {
        last
    }
}

} // verus!
