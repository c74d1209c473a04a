//! Bitmap font building: the configuration, the characters to render and the
//! packing of glyph boxes into rows of an atlas texture.
use vstd::prelude::*;
use crate::text::chars_of;

verus! {

/// The font configuration: the font file, the characters to render, the pixel
/// size, the padding around each glyph and the widest atlas allowed.
pub struct FontConfig {
    pub font_path: String,
    pub chars: String,
    pub font_size: u32,
    pub padding: u32,
    pub texture_max_width: u32,
}

/// The font size used where the configuration names none.
pub fn font_size() -> (r: u32)
    ensures
        r == 24,
{
    24
}

/// The padding used where the configuration names none.
pub fn padding() -> (r: u32)
    ensures
        r == 2,
{
    2
}

/// The atlas width limit used where the configuration names none.
pub fn texture_max_width() -> (r: u32)
    ensures
        r == 2048,
{
    2048
}

impl FontConfig {
    /// A configuration with the given font and characters and the default
    /// size, padding and width limit.
    pub fn with_defaults(font_path: String, chars: String) -> (c: Self)
        ensures
            c.font_path == font_path,
            c.chars == chars,
            c.font_size == 24,
            c.padding == 2,
            c.texture_max_width == 2048,
    {
        FontConfig {
            font_path,
            chars,
            font_size: font_size(),
            padding: padding(),
            texture_max_width: texture_max_width(),
        }
    }
}

/// The characters of `s` without repetitions, each where it first occurs.
pub open spec fn first_occurrences(s: Seq<char>) -> Seq<char>
    decreases s.len(),
{
    if s.len() == 0 {
        seq![]
    } else {
        let r = first_occurrences(s.drop_last());
        if r.contains(s.last()) {
            r
        } else {
            r.push(s.last())
        }
    }
}

/// The characters to render: those of `s`, each once, in order of first
/// occurrence.
pub fn unique_chars(s: &str) -> (r: Vec<char>)
    ensures
        r@ == first_occurrences(s@),
{
    let chars = chars_of(s);
    let mut out: Vec<char> = Vec::new();
    let mut i: usize = 0;
    assert(chars@.take(0) == Seq::<char>::empty());
    while i < chars.len()
        invariant
            i <= chars@.len(),
            chars@ == s@,
            out@ == first_occurrences(chars@.take(i as int)),
        decreases chars@.len() - i,
    {
        let c = chars[i];
        let mut seen = false;
        let mut k: usize = 0;
        while k < out.len()
            invariant
                k <= out@.len(),
                seen == exists|j: int| 0 <= j < k && out@[j] == c,
            decreases out@.len() - k,
        {
            if out[k] == c {
                seen = true;
            }
            k = k + 1;
        }
        assert(chars@.take(i + 1).drop_last() == chars@.take(i as int));
        assert(chars@.take(i + 1).last() == c);
        if !seen {
            out.push(c);
        }
        i = i + 1;
    }
    assert(chars@.take(i as int) == chars@);
    out
}

/// Each character of `s` occurs once in `first_occurrences(s)`, and no other.
pub proof fn law_unique_chars(s: Seq<char>)
    ensures
        first_occurrences(s).no_duplicates(),
        forall|c: char| first_occurrences(s).contains(c) <==> s.contains(c),
    decreases s.len(),
{
    if s.len() > 0 {
        law_unique_chars(s.drop_last());
        let r = first_occurrences(s.drop_last());
        assert forall|c: char| first_occurrences(s).contains(c) <==> s.contains(c) by {
            if s.contains(c) {
                let t = choose|t: int| 0 <= t < s.len() && s[t] == c;
                if t < s.len() - 1 {
                    assert(s.drop_last()[t] == c);
                }
            }
            if s.drop_last().contains(c) {
                let t = choose|t: int| 0 <= t < s.len() - 1 && s.drop_last()[t] == c;
                assert(s[t] == c);
            }
            if !r.contains(s.last()) && first_occurrences(s).contains(c) {
                let t = choose|t: int| 0 <= t < r.len() + 1 && r.push(s.last())[t] == c;
                if t < r.len() {
                    assert(r[t] == c);
                }
            }
            if !r.contains(s.last()) && r.contains(c) {
                let t = choose|t: int| 0 <= t < r.len() && r[t] == c;
                assert(r.push(s.last())[t] == c);
            }
            if !r.contains(s.last()) && c == s.last() {
                assert(r.push(s.last())[r.len() as int] == c);
            }
        }
    }
}

/// Why glyphs could not be packed.  Glyphs are counted from 0.
#[derive(Clone, Copy, Debug, PartialEq, Eq, Structural)]
pub enum AtlasError {
    /// The padded glyph does not fit in a row beside column 0, which is kept
    /// for the white pixel: it is at least as wide as the atlas may be.
    GlyphTooWide { index: usize },
    /// The atlas would be taller than 8192 rows.
    TooTall { height: u128 },
}

/// The state of packing: the next free position in the current row, the top
/// of the current row, its height so far, and the position of each glyph.
pub struct PackState {
    pub x: nat,
    pub y: nat,
    pub row: nat,
    pub placed: Seq<(nat, nat)>,
}

/// Places a padded box of `w` by `h`: on the current row if it fits within
/// `max`, else at the start of a new row below.  Column 0 of the first row is
/// left for a white pixel, so rows start at column 1.
pub open spec fn place(st: PackState, w: nat, h: nat, max: nat) -> PackState {
    let (x, y, row) = if st.x + w > max {
        (1nat, st.y + st.row, 0nat)
    } else {
        (st.x, st.y, st.row)
    };
    PackState {
        x: x + w,
        y,
        row: if row >= h {
            row
        } else {
            h
        },
        placed: st.placed.push((x, y)),
    }
}

/// Packing of the first `n` glyphs of `sizes` (width, height), each padded by
/// `pad` on every side.
pub open spec fn pack_spec(sizes: Seq<(u32, u32)>, pad: nat, max: nat, n: nat) -> Result<
    PackState,
    AtlasError,
>
    decreases n,
{
    if n == 0 {
        Ok(PackState { x: 1, y: 0, row: 0, placed: seq![] })
    } else {
        match pack_spec(sizes, pad, max, (n - 1) as nat) {
            Err(e) => Err(e),
            Ok(st) => {
                let w = sizes[n - 1].0 + 2 * pad;
                let h = sizes[n - 1].1 + 2 * pad;
                if w >= max {
                    Err(AtlasError::GlyphTooWide { index: (n - 1) as usize })
                } else {
                    Ok(place(st, w as nat, h as nat, max))
                }
            },
        }
    }
}

/// The packing of all glyphs: their positions and the atlas height, or why
/// there is none.
pub open spec fn pack_result(sizes: Seq<(u32, u32)>, pad: nat, max: nat) -> Result<
    (Seq<(nat, nat)>, nat),
    AtlasError,
> {
    match pack_spec(sizes, pad, max, sizes.len()) {
        Err(e) => Err(e),
        Ok(st) => if st.y + st.row > 8192 {
            Err(AtlasError::TooTall { height: (st.y + st.row) as u128 })
        } else {
            Ok((st.placed, st.y + st.row))
        },
    }
}

/// Where the glyphs go in the atlas, and how tall the atlas is.
pub struct Packing {
    pub positions: Vec<(u64, u32)>,
    pub height: u32,
}

/// The positions as pairs of integers.
pub open spec fn positions_view(v: Seq<(u64, u32)>) -> Seq<(nat, nat)> {
    v.map_values(|p: (u64, u32)| (p.0 as nat, p.1 as nat))
}

proof fn lemma_pack_bounds(sizes: Seq<(u32, u32)>, pad: nat, max: nat, n: nat)
    requires
        n <= sizes.len(),
        pad <= u32::MAX,
        max <= u32::MAX,
        pack_spec(sizes, pad, max, n) is Ok,
    ensures
        ({
            let st = pack_spec(sizes, pad, max, n)->Ok_0;
            &&& 1 <= st.x <= max + 1
            &&& st.row <= 0x3_0000_0000
            &&& st.y + st.row <= n * 0x3_0000_0000
            &&& st.placed.len() == n
            &&& forall|i: int| 0 <= i < n ==> #[trigger] st.placed[i].1 <= st.y
        }),
    decreases n,
{
    if n > 0 {
        lemma_pack_bounds(sizes, pad, max, (n - 1) as nat);
        let st = pack_spec(sizes, pad, max, (n - 1) as nat)->Ok_0;
        let st2 = pack_spec(sizes, pad, max, n)->Ok_0;
        assert forall|i: int| 0 <= i < n implies #[trigger] st2.placed[i].1 <= st2.y by {
            if i < n - 1 {
                assert(st2.placed[i] == st.placed[i]);
            }
        }
    }
}

/// Packs glyph boxes of the given sizes, padded by `pad` on every side, into
/// rows no wider than `max_width`.
pub fn pack_glyphs(sizes: &[(u32, u32)], pad: u32, max_width: u32) -> (r: Result<Packing, AtlasError>)
    ensures
        match pack_result(sizes@, pad as nat, max_width as nat) {
            Err(e) => r == Err::<Packing, AtlasError>(e),
            Ok((placed, height)) => r matches Ok(p) && positions_view(p.positions@) == placed
                && p.height == height,
        },
{
    let max: u64 = max_width as u64;
    let pad2: u64 = 2 * (pad as u64);
    let mut x: u64 = 1;
    let mut y: u128 = 0;
    let mut row: u64 = 0;
    let mut positions: Vec<(u64, u128)> = Vec::new();
    let mut i: usize = 0;
    while i < sizes.len()
        invariant
            i <= sizes@.len(),
            max == max_width,
            pad2 == 2 * pad,
            pack_spec(sizes@, pad as nat, max_width as nat, i as nat) matches Ok(st) && st.x == x
                && st.y == y && st.row == row && st.placed == positions@.map_values(
                |p: (u64, u128)| (p.0 as nat, p.1 as nat),
            ),
        decreases sizes@.len() - i,
    {
        proof {
            lemma_pack_bounds(sizes@, pad as nat, max_width as nat, i as nat);
        }
        let (gw, gh) = sizes[i];
        let w: u64 = gw as u64 + pad2;
        let h: u64 = gh as u64 + pad2;
        if w >= max {
            proof {
                lemma_pack_err(sizes@, pad as nat, max_width as nat, (i + 1) as nat, sizes@.len());
            }
            return Err(AtlasError::GlyphTooWide { index: i });
        }
        if x + w > max {
            x = 1;
            y = y + row as u128;
            row = 0;
        }
        let ghost before = positions@.map_values(|p: (u64, u128)| (p.0 as nat, p.1 as nat));
        positions.push((x, y));
        assert(positions@.map_values(|p: (u64, u128)| (p.0 as nat, p.1 as nat)) == before.push(
            (x as nat, y as nat),
        ));
        x = x + w;
        if row < h {
            row = h;
        }
        i = i + 1;
    }
    proof {
        lemma_pack_bounds(sizes@, pad as nat, max_width as nat, i as nat);
    }
    let total: u128 = y + row as u128;
    if total > 8192 {
        return Err(AtlasError::TooTall { height: total });
    }
    let ghost pv = positions@.map_values(|p: (u64, u128)| (p.0 as nat, p.1 as nat));
    assert forall|j: int| 0 <= j < positions@.len() implies #[trigger] positions@[j].1 <= y by {
        assert(pv[j].1 == positions@[j].1);
    }
    let mut out: Vec<(u64, u32)> = Vec::new();
    let mut k: usize = 0;
    while k < positions.len()
        invariant
            k <= positions@.len(),
            forall|j: int| 0 <= j < positions@.len() ==> #[trigger] positions@[j].1 <= y,
            y <= 8192,
            positions_view(out@) == positions@.map_values(
                |p: (u64, u128)| (p.0 as nat, p.1 as nat),
            ).take(k as int),
        decreases positions@.len() - k,
    {
        let (px, py) = positions[k];
        assert(py <= 8192);
        let ghost prev = positions_view(out@);
        out.push((px, py as u32));
        assert(positions_view(out@) == prev.push((px as nat, py as nat)));
        k = k + 1;
        assert(positions_view(out@) == positions@.map_values(
            |p: (u64, u128)| (p.0 as nat, p.1 as nat),
        ).take(k as int));
    }
    assert(positions@.map_values(|p: (u64, u128)| (p.0 as nat, p.1 as nat)).take(k as int)
        == positions@.map_values(|p: (u64, u128)| (p.0 as nat, p.1 as nat)));
    Ok(Packing { positions: out, height: total as u32 })
}

proof fn lemma_pack_err(sizes: Seq<(u32, u32)>, pad: nat, max: nat, n: nat, m: nat)
    requires
        n <= m,
        pack_spec(sizes, pad, max, n) is Err,
    ensures
        pack_spec(sizes, pad, max, m) == pack_spec(sizes, pad, max, n),
    decreases m - n,
{
    if n < m {
        lemma_pack_err(sizes, pad, max, n, (m - 1) as nat);
    }
}

/// The padded width and height of glyph `i`.
pub open spec fn box_w(sizes: Seq<(u32, u32)>, pad: nat, i: int) -> nat {
    (sizes[i].0 + 2 * pad) as nat
}

pub open spec fn box_h(sizes: Seq<(u32, u32)>, pad: nat, i: int) -> nat {
    (sizes[i].1 + 2 * pad) as nat
}

/// Box `i` lies wholly above box `j`, or on the same row wholly to its left.
pub open spec fn box_before(placed: Seq<(nat, nat)>, sizes: Seq<(u32, u32)>, pad: nat, i: int, j: int) -> bool {
    placed[i].1 + box_h(sizes, pad, i) <= placed[j].1 || (placed[i].1 == placed[j].1
        && placed[i].0 + box_w(sizes, pad, i) <= placed[j].0)
}

proof fn lemma_pack_rows(sizes: Seq<(u32, u32)>, pad: nat, max: nat, n: nat)
    requires
        n <= sizes.len(),
        pack_spec(sizes, pad, max, n) is Ok,
    ensures
        ({
            let st = pack_spec(sizes, pad, max, n)->Ok_0;
            &&& st.placed.len() == n
            &&& forall|i: int|
                0 <= i < n ==> (#[trigger] st.placed[i].1 == st.y && box_h(sizes, pad, i) <= st.row
                    && st.placed[i].0 + box_w(sizes, pad, i) <= st.x) || st.placed[i].1 + box_h(
                    sizes,
                    pad,
                    i,
                ) <= st.y
            &&& forall|i: int, j: int| 0 <= i < j < n ==> box_before(st.placed, sizes, pad, i, j)
            &&& 1 <= st.x
            &&& forall|i: int|
                0 <= i < n ==> 1 <= #[trigger] st.placed[i].0 && st.placed[i].0 + box_w(sizes, pad, i) <= max
        }),
    decreases n,
{
    if n > 0 {
        lemma_pack_rows(sizes, pad, max, (n - 1) as nat);
        let st = pack_spec(sizes, pad, max, (n - 1) as nat)->Ok_0;
        let st2 = pack_spec(sizes, pad, max, n)->Ok_0;
        let k = n - 1;
        assert(st2 == place(st, box_w(sizes, pad, k), box_h(sizes, pad, k), max));
        assert forall|i: int| 0 <= i < k implies st2.placed[i] == st.placed[i] by {}
        assert forall|i: int, j: int| 0 <= i < j < n implies box_before(st2.placed, sizes, pad, i, j) by {
            if j < k {
                assert(box_before(st.placed, sizes, pad, i, j));
            }
        }
    }
}

/// Packed boxes never overlap: of two glyphs, the earlier one lies wholly
/// above the later one or on the same row wholly to its left.  Every box lies
/// within the atlas, its width limit and its height, and none covers column 0,
/// where the white pixel goes.
pub proof fn law_pack_disjoint(sizes: Seq<(u32, u32)>, pad: nat, max: nat)
    requires
        pack_result(sizes, pad, max) is Ok,
    ensures
        ({
            let (placed, height) = pack_result(sizes, pad, max)->Ok_0;
            &&& placed.len() == sizes.len()
            &&& forall|i: int, j: int|
                0 <= i < j < sizes.len() ==> box_before(placed, sizes, pad, i, j)
            &&& forall|i: int|
                0 <= i < sizes.len() ==> 1 <= #[trigger] placed[i].0 && placed[i].0 + box_w(sizes, pad, i) <= max
                    && placed[i].1 + box_h(sizes, pad, i) <= height
        }),
{
    lemma_pack_rows(sizes, pad, max, sizes.len());
}

/// The atlas after writing `cols` pixels of one bitmap row: pixel `c` of the
/// row (from `src`) goes to `y * width + x + c`.
pub open spec fn blit_cols(a: Seq<u8>, width: nat, x: nat, y: nat, bitmap: Seq<u8>, src: nat, cols: nat) -> Seq<u8>
    decreases cols,
{
    if cols == 0 {
        a
    } else {
        blit_cols(a, width, x, y, bitmap, src, (cols - 1) as nat).update(
            (y * width + x + cols - 1) as int,
            bitmap[src + cols - 1],
        )
    }
}

/// The atlas after writing the first `rows` rows of a `bw`-wide bitmap whose
/// top left pixel goes to (`x`, `y`).
pub open spec fn blit_rows(a: Seq<u8>, width: nat, x: nat, y: nat, bw: nat, bitmap: Seq<u8>, rows: nat) -> Seq<u8>
    decreases rows,
{
    if rows == 0 {
        a
    } else {
        blit_cols(
            blit_rows(a, width, x, y, bw, bitmap, (rows - 1) as nat),
            width,
            x,
            (y + rows - 1) as nat,
            bitmap,
            ((rows - 1) * bw) as nat,
            bw,
        )
    }
}

/// A rendered glyph: its bitmap's width and height and its pixels, row after
/// row.
pub struct GlyphBitmap {
    pub width: usize,
    pub height: usize,
    pub pixels: Vec<u8>,
}

/// The atlas after the first `n` glyphs: each glyph's bitmap written at its
/// position shifted by the padding.
pub open spec fn atlas_after(
    start: Seq<u8>,
    width: nat,
    glyphs: Seq<GlyphBitmap>,
    positions: Seq<(u64, u32)>,
    pad: nat,
    n: nat,
) -> Seq<u8>
    decreases n,
{
    if n == 0 {
        start
    } else {
        let g = glyphs[n - 1];
        blit_rows(
            atlas_after(start, width, glyphs, positions, pad, (n - 1) as nat),
            width,
            (positions[n - 1].0 + pad) as nat,
            (positions[n - 1].1 + pad) as nat,
            g.width as nat,
            g.pixels@,
            g.height as nat,
        )
    }
}

/// The empty atlas: all pixels 0 but the first, the white pixel, 255.
pub open spec fn blank_atlas(size: nat) -> Seq<u8> {
    Seq::new(size, |i: int| if i == 0 { 255u8 } else { 0u8 })
}

/// The bitmap of glyph `g` placed at `pos` fits the atlas: its last pixel
/// lies within `size` (rows of `width` pixels), and its pixels are complete.
pub open spec fn glyph_fits(g: GlyphBitmap, pos: (u64, u32), pad: nat, width: nat, size: nat) -> bool {
    &&& g.pixels@.len() >= g.width * g.height
    &&& g.width <= width
    &&& (g.width > 0 && g.height > 0) ==> (pos.1 + pad + g.height - 1) * width + pos.0 + pad + g.width
        <= size
}

proof fn lemma_row_index(y: nat, r: nat, h: nat, width: nat, x: nat, c: nat, bw: nat, size: nat)
    requires
        r < h,
        c < bw,
        (y + h - 1) * width + x + bw <= size,
    ensures
        (y + r) * width + x + c < size,
        (y + r) * width + x + c + 1 <= size,
{
    assert((y + r) * width <= (y + h - 1) * width) by (nonlinear_arith)
        requires
            r < h,
    ;
}

/// A whole atlas fits: its size is a positive `usize`, each glyph has a
/// position, and each fits (see `glyph_fits`).
pub open spec fn atlas_fits(width: nat, height: nat, glyphs: Seq<GlyphBitmap>, positions: Seq<(u64, u32)>, pad: nat) -> bool {
    &&& width * height <= usize::MAX
    &&& width * height >= 1
    &&& glyphs.len() == positions.len()
    &&& forall|i: int| 0 <= i < glyphs.len() ==> #[trigger] glyph_fits(glyphs[i], positions[i], pad, width, width * height)
}

/// Whether the glyphs can be written into an atlas of `width` by `height`:
/// see `atlas_fits`.
pub fn glyphs_fit(width: usize, height: usize, glyphs: &[GlyphBitmap], positions: &[(u64, u32)], pad: u32) -> (r: bool)
    ensures
        r == atlas_fits(width as nat, height as nat, glyphs@, positions@, pad as nat),
{
    let size = match width.checked_mul(height) {
        None => return false,
        Some(s) => s,
    };
    if size == 0 || glyphs.len() != positions.len() {
        return false;
    }
    let mut i: usize = 0;
    while i < glyphs.len()
        invariant
            size == width * height,
            size >= 1,
            glyphs@.len() == positions@.len(),
            i <= glyphs@.len(),
            forall|j: int| 0 <= j < i ==> #[trigger] glyph_fits(glyphs@[j], positions@[j], pad as nat, width as nat, size as nat),
        decreases glyphs@.len() - i,
    {
        let g = &glyphs[i];
        let (x, y) = positions[i];
        let plen = g.pixels.len();
        let ghost fits = glyph_fits(glyphs@[i as int], positions@[i as int], pad as nat, width as nat, size as nat);
        let enough = match g.width.checked_mul(g.height) {
            None => false,
            Some(n) => plen >= n,
        };
        if !enough || g.width > width {
            assert(!fits);
            return false;
        }
        if g.width > 0 && g.height > 0 {
            let row: u128 = y as u128 + pad as u128 + g.height as u128 - 1;
            let tail: u128 = x as u128 + pad as u128 + g.width as u128;
            assert(row == y + pad + g.height - 1);
            match row.checked_mul(width as u128) {
                None => {
                    assert(row * width > u128::MAX);
                    assert(!fits);
                    return false;
                },
                Some(p) => match p.checked_add(tail) {
                    None => {
                        assert(!fits);
                        return false;
                    },
                    Some(e) => if e > size as u128 {
                        assert(!fits);
                        return false;
                    },
                },
            }
        }
        assert(glyph_fits(glyphs@[i as int], positions@[i as int], pad as nat, width as nat, size as nat));
        i = i + 1;
    }
    true
}

/// The atlas of the packed glyphs: `width` by `height` pixels, the white
/// pixel first, then each glyph's bitmap at its position shifted by the
/// padding.
pub fn blit_atlas(width: usize, height: usize, glyphs: &[GlyphBitmap], positions: &[(u64, u32)], pad: u32) -> (r: Vec<u8>)
    requires
        width * height <= usize::MAX,
        width * height >= 1,
        glyphs@.len() == positions@.len(),
        forall|i: int|
            0 <= i < glyphs@.len() ==> #[trigger] glyph_fits(glyphs@[i], positions@[i], pad as nat, width as nat, (width * height) as nat),
    ensures
        r@ == atlas_after(blank_atlas((width * height) as nat), width as nat, glyphs@, positions@, pad as nat, glyphs@.len()),
{
    let size: usize = width * height;
    let mut atlas: Vec<u8> = Vec::new();
    let mut k: usize = 0;
    while k < size
        invariant
            k <= size,
            atlas@ == Seq::new(k as nat, |i: int| 0u8),
        decreases size - k,
    {
        atlas.push(0);
        k = k + 1;
        assert(atlas@ == Seq::new(k as nat, |i: int| 0u8));
    }
    atlas.set(0, 255);
    assert(atlas@ == blank_atlas(size as nat));
    let ghost start = atlas@;
    assert forall|i: int| 0 <= i < glyphs@.len() implies #[trigger] glyph_fits(glyphs@[i], positions@[i], pad as nat, width as nat, size as nat) by {
        assert(glyph_fits(glyphs@[i], positions@[i], pad as nat, width as nat, (width * height) as nat));
    }
    let mut gi: usize = 0;
    while gi < glyphs.len()
        invariant
            gi <= glyphs@.len(),
            glyphs@.len() == positions@.len(),
            size == width * height,
            size >= 1,
            start == blank_atlas(size as nat),
            atlas@.len() == size,
            atlas@ == atlas_after(start, width as nat, glyphs@, positions@, pad as nat, gi as nat),
            forall|i: int|
                0 <= i < glyphs@.len() ==> #[trigger] glyph_fits(glyphs@[i], positions@[i], pad as nat, width as nat, size as nat),
        decreases glyphs@.len() - gi,
    {
        let g = &glyphs[gi];
        let (px, py) = positions[gi];
        assert(glyph_fits(glyphs@[gi as int], positions@[gi as int], pad as nat, width as nat, size as nat));
        let ghost x0: nat = (px + pad) as nat;
        let ghost y0: nat = (py + pad) as nat;
        let ghost before = atlas@;
        if g.width > 0 && g.height > 0 {
            proof {
                lemma_glyph_origin(x0, y0, g.height as nat, width as nat, g.width as nat, size as nat, height as nat);
            }
            assert(width >= 1) by (nonlinear_arith)
                requires
                    size == width * height,
                    size >= 1,
            ;
            let x: usize = (px + pad as u64) as usize;
            let y: usize = (py as u64 + pad as u64) as usize;
            let mut row: usize = 0;
            while row < g.height
                invariant
                    row <= g.height,
                    g.width > 0 && g.height > 0,
                    x == x0,
                    y == y0,
                    atlas@.len() == size,
                    size == width * height,
                    g.pixels.len() >= g.width * g.height,
                    g.width <= width,
                    width >= 1,
                    (y0 + g.height - 1) * width + x0 + g.width <= size,
                    atlas@ == blit_rows(before, width as nat, x0, y0, g.width as nat, g.pixels@, row as nat),
                decreases g.height - row,
            {
                let ghost a_row = atlas@;
                proof {
                    lemma_row_index(y0, row as nat, g.height as nat, width as nat, x0, (g.width - 1) as nat, g.width as nat, size as nat);
                    lemma_row_src(row as nat, g.width as nat, g.height as nat);
                    assert(y0 + row <= (y0 + row) * width) by (nonlinear_arith)
                        requires
                            width >= 1,
                    ;
                }
                let base: usize = (y + row) * width + x;
                let src: usize = row * g.width;
                let mut col: usize = 0;
                while col < g.width
                    invariant
                        col <= g.width,
                        row < g.height,
                        g.width > 0,
                        base == (y0 + row) * width + x0,
                        src == row * g.width,
                        src + g.width <= g.pixels.len(),
                        base + g.width <= size,
                        atlas@.len() == size,
                        atlas@ == blit_cols(a_row, width as nat, x0, (y0 + row) as nat, g.pixels@, src as nat, col as nat),
                    decreases g.width - col,
                {
                    atlas.set(base + col, g.pixels[src + col]);
                    col = col + 1;
                }
                row = row + 1;
            }
        } else {
            proof {
                if g.width == 0 {
                    lemma_zero_width(before, width as nat, x0, y0, g.pixels@, g.height as nat);
                }
            }
        }
        gi = gi + 1;
    }
    atlas
}

proof fn lemma_glyph_origin(x0: nat, y0: nat, h: nat, width: nat, bw: nat, size: nat, height: nat)
    requires
        h > 0,
        bw > 0,
        size == width * height,
        size >= 1,
        (y0 + h - 1) * width + x0 + bw <= size,
    ensures
        x0 + bw <= size,
        y0 * width + x0 + bw <= size,
        y0 <= size,
{
    assert(width >= 1) by (nonlinear_arith)
        requires
            size == width * height,
            size >= 1,
    ;
    assert(y0 <= y0 * width) by (nonlinear_arith)
        requires
            width >= 1,
    ;
    assert((y0 + h - 1) * width >= y0 * width) by (nonlinear_arith)
        requires
            h > 0,
    ;
    assert(y0 * width >= 0) by (nonlinear_arith);
}

proof fn lemma_row_src(row: nat, bw: nat, h: nat)
    requires
        row < h,
    ensures
        row * bw + bw <= bw * h,
{
    assert(row * bw + bw <= bw * h) by (nonlinear_arith)
        requires
            row < h,
    ;
}

proof fn lemma_zero_width(a: Seq<u8>, width: nat, x: nat, y: nat, bitmap: Seq<u8>, r: nat)
    ensures
        blit_rows(a, width, x, y, 0, bitmap, r) == a,
    decreases r,
{
    if r > 0 {
        lemma_zero_width(a, width, x, y, bitmap, (r - 1) as nat);
    }
}

} // verus!
