//! DEC Sixel encoding of RGB pixels: a palette of at most 256 colours, each
//! pixel drawn in its nearest palette colour, six pixel rows per band.
use vstd::prelude::*;
use vstd::utf8::*;
use vstd::string::*;
use vstd::arithmetic::power2::pow2;
use crate::text::{bytes_of, utf8_str};
use crate::paths::{decimal, decimal_string};

verus! {

broadcast use {vstd::utf8::encode_utf8_valid_utf8, vstd::utf8::encode_utf8_decode_utf8};

/// Largest palette.
pub const MAX_COLORS: usize = 256;

/// Pixel rows per sixel band.
pub const BAND_HEIGHT: usize = 6;

/// An image as rows of RGB bytes, three per pixel, row after row.
pub struct RgbPixels {
    pub width: u32,
    pub height: u32,
    pub data: Vec<u8>,
}

/// The pixel buffer holds exactly three bytes per pixel.
pub open spec fn pixels_wf(img: RgbPixels) -> bool {
    img.data@.len() == img.width * img.height * 3
}

/// The colour of pixel `p` (in row-major order).
pub open spec fn color_at(data: Seq<u8>, p: int) -> Seq<u8> {
    seq![data[3 * p], data[3 * p + 1], data[3 * p + 2]]
}

/// Lexicographic order of colours (what sorting `[u8; 3]` uses).
pub open spec fn color_lt(a: Seq<u8>, b: Seq<u8>) -> bool {
    a[0] < b[0] || (a[0] == b[0] && (a[1] < b[1] || (a[1] == b[1] && a[2] < b[2])))
}

/// The colours of a palette.
pub open spec fn colors_of(v: Seq<[u8; 3]>) -> Seq<Seq<u8>> {
    v.map_values(|c: [u8; 3]| c@)
}

/// Position of the first colour of `s` (from `i`) that comes after `c`.
pub open spec fn insert_pos(s: Seq<Seq<u8>>, c: Seq<u8>, i: int) -> int
    decreases s.len() - i,
{
    if i < 0 || i >= s.len() {
        s.len() as int
    } else if color_lt(c, s[i]) {
        i
    } else {
        insert_pos(s, c, i + 1)
    }
}

/// `c` inserted into sorted `s` before the first larger colour.
pub open spec fn insert_sorted(s: Seq<Seq<u8>>, c: Seq<u8>) -> Seq<Seq<u8>> {
    let i = insert_pos(s, c, 0);
    s.take(i).push(c) + s.skip(i)
}

/// The palette of the first `n` pixels: their distinct colours in sorted
/// order, collected until there are 256 of them.
pub open spec fn palette_upto(data: Seq<u8>, n: int) -> Seq<Seq<u8>>
    decreases n,
{
    if n <= 0 {
        seq![]
    } else {
        let s = palette_upto(data, n - 1);
        let c = color_at(data, n - 1);
        if s.len() >= 256 || s.contains(c) {
            s
        } else {
            insert_sorted(s, c)
        }
    }
}

/// Strictly increasing colours.
pub open spec fn sorted_colors(s: Seq<Seq<u8>>) -> bool {
    forall|i: int, j: int| 0 <= i < j < s.len() ==> color_lt(s[i], s[j])
}

/// Every colour has three bytes.
pub open spec fn rgb_colors(s: Seq<Seq<u8>>) -> bool {
    forall|i: int| 0 <= i < s.len() ==> (#[trigger] s[i]).len() == 3
}

proof fn lemma_color_lt_trans(a: Seq<u8>, b: Seq<u8>, c: Seq<u8>)
    requires
        color_lt(a, b),
        color_lt(b, c),
    ensures
        color_lt(a, c),
{
}

proof fn lemma_insert_pos(s: Seq<Seq<u8>>, c: Seq<u8>, i: int)
    requires
        0 <= i <= s.len(),
    ensures
        i <= insert_pos(s, c, i) <= s.len(),
        forall|k: int| i <= k < insert_pos(s, c, i) ==> !color_lt(c, #[trigger] s[k]),
        insert_pos(s, c, i) < s.len() ==> color_lt(c, s[insert_pos(s, c, i)]),
    decreases s.len() - i,
{
    if i < s.len() && !color_lt(c, s[i]) {
        lemma_insert_pos(s, c, i + 1);
    }
}

proof fn lemma_insert_sorted(s: Seq<Seq<u8>>, c: Seq<u8>)
    requires
        sorted_colors(s),
        rgb_colors(s),
        c.len() == 3,
        !s.contains(c),
    ensures
        sorted_colors(insert_sorted(s, c)),
        rgb_colors(insert_sorted(s, c)),
        insert_sorted(s, c).len() == s.len() + 1,
        insert_sorted(s, c).to_set() == s.to_set().insert(c),
{
    lemma_insert_pos(s, c, 0);
    let i = insert_pos(s, c, 0);
    let r = insert_sorted(s, c);
    assert(r.len() == s.len() + 1);
    assert forall|k: int| 0 <= k < r.len() implies #[trigger] r[k] == if k < i {
        s[k]
    } else if k == i {
        c
    } else {
        s[k - 1]
    } by {}
    if i > 0 {
        // the colour before the insertion point is smaller
        let p = s[i - 1];
        assert(!color_lt(c, p));
        assert(p != c) by {
            assert(s.contains(p));
        }
        assert(p.len() == 3);
        assert(color_lt(p, c)) by {
            if !color_lt(p, c) {
                assert(p =~= c);
            }
        }
    }
    assert forall|a: int, b: int| 0 <= a < b < r.len() implies color_lt(r[a], r[b]) by {
        if b < i {
        } else if b == i {
            if a < i - 1 {
                lemma_color_lt_trans(s[a], s[i - 1], c);
            }
        } else if a == i {
            if b - 1 > i {
                lemma_color_lt_trans(c, s[i], s[b - 1]);
            }
        } else if a < i {
            assert(a < b - 1);
        } else {
        }
    }
    assert(r.to_set() =~= s.to_set().insert(c)) by {
        assert forall|x: Seq<u8>| r.to_set().contains(x) implies s.to_set().insert(c).contains(x) by {
            let k = choose|k: int| 0 <= k < r.len() && r[k] == x;
            if k < i {
                assert(s.contains(s[k]));
            } else if k > i {
                assert(s.contains(s[k - 1]));
            }
        }
        assert forall|x: Seq<u8>| s.to_set().insert(c).contains(x) implies r.to_set().contains(x) by {
            if x == c {
                assert(r[i] == c);
            } else {
                let k = choose|k: int| 0 <= k < s.len() && s[k] == x;
                if k < i {
                    assert(r[k] == x);
                } else {
                    assert(r[k + 1] == x);
                }
            }
        }
    }
}

/// The palette is sorted, holds at most 256 three-byte colours, and every
/// colour in it is the colour of one of the pixels.
pub proof fn lemma_palette_props(data: Seq<u8>, n: int)
    ensures
        sorted_colors(palette_upto(data, n)),
        rgb_colors(palette_upto(data, n)),
        palette_upto(data, n).len() <= 256,
        forall|c: Seq<u8>|
            #[trigger] palette_upto(data, n).contains(c) ==> exists|p: int|
                0 <= p < n && color_at(data, p) == c,
    decreases n,
{
    if n > 0 {
        lemma_palette_props(data, n - 1);
        let s = palette_upto(data, n - 1);
        let c = color_at(data, n - 1);
        if !(s.len() >= 256 || s.contains(c)) {
            lemma_insert_sorted(s, c);
            let r = insert_sorted(s, c);
            assert forall|x: Seq<u8>| #[trigger] r.contains(x) implies exists|p: int|
                0 <= p < n && color_at(data, p) == x by {
                assert(r.to_set().contains(x));
                if x != c {
                    assert(s.to_set().contains(x));
                    let p = choose|p: int| 0 <= p < n - 1 && color_at(data, p) == x;
                    assert(0 <= p < n && color_at(data, p) == x);
                } else {
                    assert(0 <= n - 1 < n && color_at(data, n - 1) == x);
                }
            }
        } else {
            assert forall|x: Seq<u8>| #[trigger] s.contains(x) implies exists|p: int|
                0 <= p < n && color_at(data, p) == x by {
                let p = choose|p: int| 0 <= p < n - 1 && color_at(data, p) == x;
                assert(0 <= p < n && color_at(data, p) == x);
            }
        }
    }
}

/// Once 256 colours are collected the palette no longer changes.
proof fn lemma_palette_full(data: Seq<u8>, n: int, m: int)
    requires
        0 <= n <= m,
        palette_upto(data, n).len() >= 256,
    ensures
        palette_upto(data, m) == palette_upto(data, n),
    decreases m - n,
{
    if n < m {
        lemma_palette_full(data, n, m - 1);
    }
}

/// The palette of the first `npx` pixels of `data`: their distinct colours,
/// collected in pixel order until there are 256, then sorted.
pub fn build_palette(data: &Vec<u8>, npx: usize) -> (r: Vec<[u8; 3]>)
    requires
        data@.len() == 3 * npx,
    ensures
        colors_of(r@) == palette_upto(data@, npx as int),
        r@.len() <= MAX_COLORS,
{
    let dl = data.len();
    let mut pal: Vec<[u8; 3]> = Vec::new();
    let mut p: usize = 0;
    proof {
        assert(colors_of(pal@) =~= Seq::<Seq<u8>>::empty());
    }
    while p < npx
        invariant
            data@.len() == 3 * npx,
            dl == data@.len(),
            p <= npx,
            colors_of(pal@) == palette_upto(data@, p as int),
        decreases npx - p,
    {
        proof {
            lemma_palette_props(data@, p as int);
        }
        if pal.len() >= MAX_COLORS {
            proof {
                lemma_palette_full(data@, p as int, npx as int);
            }
            return pal;
        }
        let c: [u8; 3] = [data[3 * p], data[3 * p + 1], data[3 * p + 2]];
        let ghost cs = colors_of(pal@);
        assert(c@ =~= color_at(data@, p as int));
        // look for the colour, and for the first larger one
        let mut i: usize = 0;
        let mut found = false;
        let mut pos = pal.len();
        while i < pal.len() && !found
            invariant
                cs == colors_of(pal@),
                c@.len() == 3,
                i <= pal@.len(),
                pos <= pal@.len(),
                found ==> cs.contains(c@),
                !found ==> forall|k: int| 0 <= k < i ==> cs[k] != c@,
                pos == cs.len() ==> forall|k: int| 0 <= k < i ==> !color_lt(c@, #[trigger] cs[k]),
                pos < cs.len() ==> pos < i && color_lt(c@, cs[pos as int]) && forall|k: int|
                    0 <= k < pos ==> !color_lt(c@, #[trigger] cs[k]),
            decreases pal@.len() - i + if found {
                0int
            } else {
                1int
            },
        {
            let q = pal[i];
            proof {
                assert(cs[i as int] == q@);
            }
            if q[0] == c[0] && q[1] == c[1] && q[2] == c[2] {
                proof {
                    assert(q@ =~= c@);
                    assert(cs[i as int] == c@);
                }
                found = true;
            } else {
                proof {
                    assert(q@ != c@) by {
                        if q@ == c@ {
                            assert(q@[0] == c@[0] && q@[1] == c@[1] && q@[2] == c@[2]);
                        }
                    }
                }
                if pos == pal.len() && (c[0] < q[0] || (c[0] == q[0] && (c[1] < q[1] || (c[1]
                    == q[1] && c[2] < q[2])))) {
                    pos = i;
                }
                i = i + 1;
            }
        }
        if !found {
            proof {
                lemma_insert_pos(cs, c@, 0);
                assert(insert_pos(cs, c@, 0) == pos);
                assert(!cs.contains(c@)) by {
                    if cs.contains(c@) {
                        let k = choose|k: int| 0 <= k < cs.len() && cs[k] == c@;
                        assert(cs[k] != c@);
                    }
                }
            }
            pal.insert(pos, c);
            proof {
                assert(colors_of(pal@) =~= insert_sorted(cs, c@));
            }
        }
        p = p + 1;
    }
    proof {
        lemma_palette_props(data@, npx as int);
    }
    pal
}

/// Squared difference of two channel values.
pub open spec fn sq_diff(a: u8, b: u8) -> int {
    (a - b) * (a - b)
}

/// Squared distance between two colours.
pub open spec fn color_dist(a: Seq<u8>, b: Seq<u8>) -> int {
    sq_diff(a[0], b[0]) + sq_diff(a[1], b[1]) + sq_diff(a[2], b[2])
}

/// Best (index, distance) among the first `k` palette colours: a colour
/// replaces the best so far only when strictly nearer.
pub open spec fn nearest_scan(c: Seq<u8>, pal: Seq<Seq<u8>>, k: int) -> (int, int)
    decreases k,
{
    if k <= 0 {
        (0, u32::MAX as int)
    } else {
        let prev = nearest_scan(c, pal, k - 1);
        let dk = color_dist(c, pal[k - 1]);
        if dk < prev.1 {
            (k - 1, dk)
        } else {
            prev
        }
    }
}

/// Index of the palette colour nearest to `c`, the first among equals (0
/// for an empty palette).
pub open spec fn nearest_index(c: Seq<u8>, pal: Seq<Seq<u8>>) -> int {
    nearest_scan(c, pal, pal.len() as int).0
}

proof fn lemma_sq_diff(a: u8, b: u8)
    ensures
        0 <= sq_diff(a, b) <= 65025,
        sq_diff(a, b) == 0 <==> a == b,
{
    let d = a - b;
    assert(0 <= d * d <= 65025) by (nonlinear_arith)
        requires
            -255 <= d <= 255,
    ;
    assert(sq_diff(a, b) == d * d);
    assert(d * d == 0 ==> d == 0) by (nonlinear_arith);
    if a == b {
        assert(d * d == 0) by (nonlinear_arith)
            requires
                d == 0,
        ;
    }
}

proof fn lemma_color_dist(a: Seq<u8>, b: Seq<u8>)
    requires
        a.len() == 3,
        b.len() == 3,
    ensures
        0 <= color_dist(a, b) <= 195075,
        color_dist(a, b) == 0 <==> a == b,
{
    lemma_sq_diff(a[0], b[0]);
    lemma_sq_diff(a[1], b[1]);
    lemma_sq_diff(a[2], b[2]);
    if color_dist(a, b) == 0 {
        assert(a =~= b);
    }
}

/// What the scan keeps: a valid index whose distance is the smallest so far,
/// and strictly smaller than that of every earlier colour.
proof fn lemma_nearest_scan(c: Seq<u8>, pal: Seq<Seq<u8>>, k: int)
    requires
        c.len() == 3,
        rgb_colors(pal),
        0 <= k <= pal.len(),
    ensures
        k == 0 ==> nearest_scan(c, pal, k) == (0int, u32::MAX as int),
        k > 0 ==> 0 <= nearest_scan(c, pal, k).0 < k,
        k > 0 ==> nearest_scan(c, pal, k).1 == color_dist(c, pal[nearest_scan(c, pal, k).0]),
        forall|j: int| 0 <= j < k ==> nearest_scan(c, pal, k).1 <= color_dist(c, #[trigger] pal[j]),
        forall|j: int|
            0 <= j < nearest_scan(c, pal, k).0 ==> nearest_scan(c, pal, k).1 < color_dist(
                c,
                #[trigger] pal[j],
            ),
    decreases k,
{
    if k > 0 {
        lemma_nearest_scan(c, pal, k - 1);
        lemma_color_dist(c, pal[k - 1]);
    }
}

/// The nearest colour is at least as near as every palette colour, and
/// strictly nearer than every colour before it.
pub proof fn law_nearest_is_nearest(c: Seq<u8>, pal: Seq<Seq<u8>>)
    requires
        c.len() == 3,
        rgb_colors(pal),
        pal.len() > 0,
    ensures
        0 <= nearest_index(c, pal) < pal.len(),
        forall|j: int|
            0 <= j < pal.len() ==> color_dist(c, pal[nearest_index(c, pal)]) <= color_dist(
                c,
                #[trigger] pal[j],
            ),
        forall|j: int|
            0 <= j < nearest_index(c, pal) ==> color_dist(c, pal[nearest_index(c, pal)])
                < color_dist(c, #[trigger] pal[j]),
{
    lemma_nearest_scan(c, pal, pal.len() as int);
}

/// A colour that occurs in the palette is drawn with its first occurrence.
pub proof fn law_nearest_exact(c: Seq<u8>, pal: Seq<Seq<u8>>, i: int)
    requires
        c.len() == 3,
        rgb_colors(pal),
        0 <= i < pal.len(),
        pal[i] == c,
        forall|j: int| 0 <= j < i ==> pal[j] != c,
    ensures
        nearest_index(c, pal) == i,
{
    law_nearest_is_nearest(c, pal);
    let n = nearest_index(c, pal);
    lemma_color_dist(c, pal[i]);
    lemma_color_dist(c, pal[n]);
    if n < i {
        assert(color_dist(c, pal[n]) <= color_dist(c, pal[i]));
        assert(pal[n] == c);
    } else if n > i {
        assert(color_dist(c, pal[n]) < color_dist(c, pal[i]));
    }
}

/// Index of the palette colour nearest to `px` (by squared RGB distance),
/// the first among equals; 0 for an empty palette.
pub fn nearest_color(px: &[u8; 3], palette: &Vec<[u8; 3]>) -> (r: usize)
    ensures
        r == nearest_index(px@, colors_of(palette@)),
{
    let ghost pal = colors_of(palette@);
    let mut best: usize = 0;
    let mut best_dist: u32 = u32::MAX;
    let mut i: usize = 0;
    while i < palette.len()
        invariant
            pal == colors_of(palette@),
            px@.len() == 3,
            i <= palette@.len(),
            (best as int, best_dist as int) == nearest_scan(px@, pal, i as int),
        decreases palette@.len() - i,
    {
        let q = palette[i];
        proof {
            assert(pal[i as int] == q@);
            lemma_sq_diff(px[0], q[0]);
            lemma_sq_diff(px[1], q[1]);
            lemma_sq_diff(px[2], q[2]);
        }
        let dr = px[0] as i32 - q[0] as i32;
        let dg = px[1] as i32 - q[1] as i32;
        let db = px[2] as i32 - q[2] as i32;
        proof {
            assert(dr * dr == sq_diff(px[0], q[0]));
            assert(dg * dg == sq_diff(px[1], q[1]));
            assert(db * db == sq_diff(px[2], q[2]));
        }
        let dist = (dr * dr + dg * dg + db * db) as u32;
        if dist < best_dist {
            best_dist = dist;
            best = i;
        }
        i = i + 1;
    }
    best
}

/// The nearest palette index of each of the first `npx` pixels.
pub open spec fn pixel_indices(data: Seq<u8>, npx: int, pal: Seq<Seq<u8>>) -> Seq<int> {
    Seq::new(npx as nat, |p: int| nearest_index(color_at(data, p), pal))
}

/// `2` to the power `b`.
pub open spec fn pow2_small(b: int) -> int
    decreases b,
{
    if b <= 0 {
        1
    } else {
        2 * pow2_small(b - 1)
    }
}

/// The sixel value of column `x` for colour `ci` in the band of `n` rows
/// from row `y0`: bit `k` is set when the pixel in row `y0 + k` has that
/// colour.
pub open spec fn cell_bits(ix: Seq<int>, w: int, y0: int, n: int, ci: int, x: int) -> int
    decreases n,
{
    if n <= 0 {
        0
    } else {
        cell_bits(ix, w, y0, n - 1, ci, x) + if ix[(y0 + n - 1) * w + x] == ci {
            pow2_small(n - 1)
        } else {
            0
        }
    }
}

/// The sixel characters of colour `ci` across a band.
pub open spec fn band_row(ix: Seq<int>, w: int, y0: int, n: int, ci: int) -> Seq<char> {
    Seq::new(w as nat, |x: int| (cell_bits(ix, w, y0, n, ci, x) + 63) as char)
}

/// Colour `ci` occurs in the band.
pub open spec fn band_uses(ix: Seq<int>, w: int, y0: int, n: int, ci: int) -> bool {
    exists|x: int| 0 <= x < w && #[trigger] cell_bits(ix, w, y0, n, ci, x) > 0
}

/// The scanlines of colours `ci..npal` that occur in the band.
pub open spec fn band_colors(ix: Seq<int>, w: int, y0: int, n: int, ci: int, npal: int) -> Seq<
    char,
>
    decreases npal - ci,
{
    if ci < 0 || ci >= npal {
        seq![]
    } else {
        (if band_uses(ix, w, y0, n, ci) {
            "#"@ + decimal(ci as nat) + band_row(ix, w, y0, n, ci) + "$"@
        } else {
            seq![]
        }) + band_colors(ix, w, y0, n, ci + 1, npal)
    }
}

/// The bands from row `y0` on, six rows each (fewer in the last), each
/// ended by `-`.
pub open spec fn bands_from(ix: Seq<int>, w: int, h: int, npal: int, y0: int) -> Seq<char>
    decreases h - y0 + 6,
{
    if y0 < 0 || y0 >= h {
        seq![]
    } else {
        let n = if h - y0 < 6 {
            h - y0
        } else {
            6
        };
        band_colors(ix, w, y0, n, 0, npal) + "-"@ + bands_from(ix, w, h, npal, y0 + 6)
    }
}

/// A channel value scaled from 0–255 to 0–100.
pub open spec fn percent(v: u8) -> nat {
    (v as int * 100 / 255) as nat
}

/// Palette entries `k..`: `#k;2;r;g;b` with channels in percent.
pub open spec fn palette_entries(pal: Seq<Seq<u8>>, k: int) -> Seq<char>
    decreases pal.len() - k,
{
    if k < 0 || k >= pal.len() {
        seq![]
    } else {
        "#"@ + decimal(k as nat) + ";2;"@ + decimal(percent(pal[k][0])) + ";"@ + decimal(
            percent(pal[k][1]),
        ) + ";"@ + decimal(percent(pal[k][2])) + palette_entries(pal, k + 1)
    }
}

/// The sixel sequence of a `w` by `h` image with pixel bytes `data`.
pub open spec fn sixel_text(w: u32, h: u32, data: Seq<u8>) -> Seq<char> {
    let npx = w * h;
    let pal = palette_upto(data, npx);
    let ix = pixel_indices(data, npx, pal);
    "\x1bP0;0;0q"@ + "\"1;1;"@ + decimal(w as nat) + ";"@ + decimal(h as nat) + palette_entries(pal, 0)
        + bands_from(ix, w as int, h as int, pal.len() as int, 0) + "\x1b\\"@
}

/// What `encode_image_sixel` gives.
pub open spec fn sixel_spec(w: u32, h: u32, data: Seq<u8>) -> Result<Seq<char>, Seq<char>> {
    if w == 0 || h == 0 {
        Err("zero-dimension image"@)
    } else {
        Ok(sixel_text(w, h, data))
    }
}

/// Abstract value of a text or an error text.
pub open spec fn text_result(r: Result<String, String>) -> Result<Seq<char>, Seq<char>> {
    match r {
        Ok(s) => Ok(s@),
        Err(m) => Err(m@),
    }
}

proof fn lemma_pow2_small(b: int)
    requires
        0 <= b <= 6,
    ensures
        1 <= pow2_small(b) <= 64,
{
    assert(pow2_small(0) == 1);
    assert(pow2_small(1) == 2);
    assert(pow2_small(2) == 4);
    assert(pow2_small(3) == 8);
    assert(pow2_small(4) == 16);
    assert(pow2_small(5) == 32);
    assert(pow2_small(6) == 64);
    assert(b == 0 || b == 1 || b == 2 || b == 3 || b == 4 || b == 5 || b == 6);
}

proof fn lemma_cell_bits_bound(ix: Seq<int>, w: int, y0: int, n: int, ci: int, x: int)
    requires
        0 <= n,
    ensures
        0 <= cell_bits(ix, w, y0, n, ci, x) < pow2_small(n),
    decreases n,
{
    if n > 0 {
        lemma_cell_bits_bound(ix, w, y0, n - 1, ci, x);
    }
}

/// Peeling the top row off a band: its pixel is the lowest bit, and the
/// rows below it make up the higher bits.
proof fn lemma_cell_bits_top(ix: Seq<int>, w: int, y0: int, n: int, ci: int, x: int)
    requires
        n >= 1,
    ensures
        cell_bits(ix, w, y0, n, ci, x) == (if ix[y0 * w + x] == ci {
            1int
        } else {
            0int
        }) + 2 * cell_bits(ix, w, y0 + 1, n - 1, ci, x),
    decreases n,
{
    assert((y0 + 1 - 1) * w == y0 * w);
    if n == 1 {
        assert(cell_bits(ix, w, y0 + 1, 0, ci, x) == 0);
        assert(pow2_small(0) == 1);
        assert(cell_bits(ix, w, y0, 0, ci, x) == 0);
        assert(cell_bits(ix, w, y0, 1, ci, x) == cell_bits(ix, w, y0, 0, ci, x) + if ix[(y0 + 1 - 1) * w + x] == ci {
            pow2_small(0)
        } else {
            0
        });
    }
    if n > 1 {
        lemma_cell_bits_top(ix, w, y0, n - 1, ci, x);
        assert(((y0 + 1) + (n - 1) - 1) * w == (y0 + n - 1) * w);
        assert(pow2_small(n - 1) == 2 * pow2_small(n - 2));
        assert(cell_bits(ix, w, y0 + 1, n - 1, ci, x) == cell_bits(ix, w, y0 + 1, n - 2, ci, x) + if ix[((y0 + 1) + (n - 1) - 1) * w + x] == ci {
            pow2_small(n - 2)
        } else {
            0
        });
    }
}

/// Bit `k` of a band's value for colour `ci` at column `x` is the pixel of
/// row `y0 + k`.
proof fn lemma_cell_bit(ix: Seq<int>, w: int, y0: int, n: int, ci: int, x: int, k: int)
    requires
        0 <= k < n,
    ensures
        (cell_bits(ix, w, y0, n, ci, x) / (pow2(k as nat) as int)) % 2 == (if ix[(y0 + k) * w
            + x] == ci {
            1int
        } else {
            0int
        }),
    decreases k,
{
    lemma_cell_bits_top(ix, w, y0, n, ci, x);
    lemma_cell_bits_bound(ix, w, y0 + 1, n - 1, ci, x);
    let c = cell_bits(ix, w, y0 + 1, n - 1, ci, x);
    let v = cell_bits(ix, w, y0, n, ci, x);
    if k == 0 {
        vstd::arithmetic::power2::lemma2_to64();
        assert(pow2(0) == 1);
    } else {
        vstd::arithmetic::power2::lemma_pow2_unfold(k as nat);
        vstd::arithmetic::power2::lemma_pow2_pos((k - 1) as nat);
        let p = pow2((k - 1) as nat) as int;
        vstd::arithmetic::div_mod::lemma_div_denominator(v, 2, p);
        assert(v / 2 == c);
        lemma_cell_bit(ix, w, y0 + 1, n - 1, ci, x, k - 1);
        assert(y0 + 1 + (k - 1) == y0 + k);
    }
}

/// Sixel columns are drawn top down: in the band of `n` rows from row
/// `y0`, the character of colour `ci` at column `x` is `63` plus a value
/// whose bit `k` (counted from the band's top row) is set exactly when the
/// pixel of row `y0 + k` in that column has palette index `ci`.
pub proof fn law_sixel_rows_top_down(ix: Seq<int>, w: int, y0: int, n: int, ci: int, x: int, k: int)
    requires
        0 <= x < w,
        0 <= k < n <= 6,
    ensures
        band_row(ix, w, y0, n, ci)[x] as int >= 63,
        ((band_row(ix, w, y0, n, ci)[x] as int - 63) / (pow2(k as nat) as int)) % 2 == (if ix[(y0
            + k) * w + x] == ci {
            1int
        } else {
            0int
        }),
{
    lemma_cell_bits_bound(ix, w, y0, n, ci, x);
    lemma_pow2_small(n);
    let v = cell_bits(ix, w, y0, n, ci, x);
    assert(0 <= v < 64);
    assert(((v + 63) as char) as int == v + 63);
    lemma_cell_bit(ix, w, y0, n, ci, x, k);
}

/// ASCII bytes are valid UTF-8 and decode to the same characters.
proof fn lemma_ascii_decode(b: Seq<u8>)
    requires
        forall|i: int| 0 <= i < b.len() ==> b[i] < 128,
    ensures
        valid_utf8(b),
        decode_utf8(b) == Seq::new(b.len(), |i: int| b[i] as char),
{
    let c = Seq::new(b.len(), |i: int| b[i] as char);
    assert(is_ascii_chars(c));
    crate::text::lemma_ascii_bytes(c);
    assert(bytes_of(c) =~= b);
}

proof fn lemma_row_index(y: int, h: int, w: int, x: int)
    requires
        0 <= y < h,
        0 <= x < w,
    ensures
        0 <= y * w + x < w * h,
{
    assert(y * w + x < w * h) by (nonlinear_arith)
        requires
            0 <= y < h,
            0 <= x < w,
    ;
    assert(0 <= y * w) by (nonlinear_arith)
        requires
            0 <= y,
            0 <= w,
    ;
}

/// The nearest palette index of every pixel.
fn index_pixels(data: &Vec<u8>, npx: usize, palette: &Vec<[u8; 3]>) -> (r: Vec<usize>)
    requires
        data@.len() == 3 * npx,
    ensures
        r@.len() == npx,
        forall|p: int| 0 <= p < npx ==> r@[p] as int == pixel_indices(data@, npx as int, colors_of(palette@))[p],
{
    let dl = data.len();
    let mut ix: Vec<usize> = Vec::new();
    let mut p: usize = 0;
    while p < npx
        invariant
            data@.len() == 3 * npx,
            dl == data@.len(),
            p <= npx,
            ix@.len() == p,
            forall|q: int| 0 <= q < p ==> ix@[q] as int == nearest_index(color_at(data@, q), colors_of(palette@)),
        decreases npx - p,
    {
        let c: [u8; 3] = [data[3 * p], data[3 * p + 1], data[3 * p + 2]];
        assert(c@ =~= color_at(data@, p as int));
        let k = nearest_color(&c, palette);
        ix.push(k);
        p = p + 1;
    }
    ix
}

/// Appends the scanlines of the colours that occur in one band.
fn emit_band(
    out: &mut String,
    ix: &Vec<usize>,
    w: usize,
    h: usize,
    y0: usize,
    n: usize,
    npal: usize,
    Ghost(pix): Ghost<Seq<int>>,
)
    requires
        1 <= n <= 6,
        y0 + n <= h,
        ix@.len() == w * h,
        pix.len() == ix@.len(),
        forall|p: int| 0 <= p < pix.len() ==> pix[p] == ix@[p] as int,
    ensures
        final(out)@ == old(out)@ + band_colors(pix, w as int, y0 as int, n as int, 0, npal as int),
{
    proof {
        reveal_strlit("#");
        reveal_strlit("$");
    }
    let il = ix.len();
    let mut ci: usize = 0;
    let ghost start = out@;
    while ci < npal
        invariant
            il == ix@.len(),
            1 <= n <= 6,
            y0 + n <= h,
            ix@.len() == w * h,
            pix.len() == ix@.len(),
            forall|p: int| 0 <= p < pix.len() ==> pix[p] == ix@[p] as int,
            ci <= npal,
            start + band_colors(pix, w as int, y0 as int, n as int, 0, npal as int) == out@
                + band_colors(pix, w as int, y0 as int, n as int, ci as int, npal as int),
        decreases npal - ci,
    {
        let mut row: Vec<u8> = Vec::new();
        let mut used = false;
        let mut x: usize = 0;
        while x < w
            invariant
                il == ix@.len(),
                forall|k: int| 0 <= k < x ==> #[trigger] row@[k] < 127,
                1 <= n <= 6,
                y0 + n <= h,
                ix@.len() == w * h,
                pix.len() == ix@.len(),
                forall|p: int| 0 <= p < pix.len() ==> pix[p] == ix@[p] as int,
                x <= w,
                row@.len() == x,
                forall|k: int|
                    0 <= k < x ==> #[trigger] row@[k] as int == cell_bits(
                        pix,
                        w as int,
                        y0 as int,
                        n as int,
                        ci as int,
                        k,
                    ) + 63,
                used == exists|k: int|
                    0 <= k < x && #[trigger] cell_bits(
                        pix,
                        w as int,
                        y0 as int,
                        n as int,
                        ci as int,
                        k,
                    ) > 0,
            decreases w - x,
        {
            let mut v: u8 = 0;
            let mut weight: u8 = 1;
            let mut bit: usize = 0;
            while bit < n
                invariant
                    il == ix@.len(),
                    1 <= n <= 6,
                    y0 + n <= h,
                    ix@.len() == w * h,
                    pix.len() == ix@.len(),
                    forall|p: int| 0 <= p < pix.len() ==> pix[p] == ix@[p] as int,
                    x < w,
                    bit <= n,
                    weight as int == pow2_small(bit as int),
                    v as int == cell_bits(pix, w as int, y0 as int, bit as int, ci as int, x as int),
                    v < weight,
                    weight <= 64,
                decreases n - bit,
            {
                proof {
                    lemma_row_index((y0 + bit) as int, h as int, w as int, x as int);
                }
                let idx = (y0 + bit) * w + x;
                if ix[idx] == ci {
                    v = v + weight;
                }
                proof {
                    lemma_pow2_small((bit + 1) as int);
                }
                weight = weight * 2;
                bit = bit + 1;
            }
            let ghost cb = cell_bits(pix, w as int, y0 as int, n as int, ci as int, x as int);
            if v > 0 {
                used = true;
            }
            row.push(v + 63);
            proof {
                assert(row@[x as int] as int == cb + 63);
                if !used {
                    assert(cb == 0);
                }
            }
            x = x + 1;
        }
        let ghost line = band_row(pix, w as int, y0 as int, n as int, ci as int);
        let ghost before = out@;
        if used {
            proof {
                lemma_ascii_decode(row@);
                assert(decode_utf8(row@) =~= line);
                let k = choose|k: int|
                    0 <= k < w && #[trigger] cell_bits(
                        pix,
                        w as int,
                        y0 as int,
                        n as int,
                        ci as int,
                        k,
                    ) > 0;
                assert(band_uses(pix, w as int, y0 as int, n as int, ci as int));
            }
            let text = match utf8_str(row.as_slice()) {
                Ok(t) => t,
                Err(_) => {
                    proof {
                        assert(false);
                    }
                    ""
                },
            };
            out.append("#");
            out.append(decimal_string(ci).as_str());
            out.append(text);
            out.append("$");
            proof {
                assert(out@ == before + ("#"@ + decimal(ci as nat) + line + "$"@));
            }
        } else {
            proof {
                assert(!band_uses(pix, w as int, y0 as int, n as int, ci as int));
            }
        }
        ci = ci + 1;
    }
}

/// Encodes RGB pixels as a DEC Sixel sequence: the raster size, a palette
/// of at most 256 colours (the first distinct pixel colours, sorted) with
/// channels in percent, then bands of six rows in which every occurring
/// colour draws its pixels (colours in palette order).  An image without
/// pixels is an error.
pub fn encode_image_sixel(img: &RgbPixels) -> (r: Result<String, String>)
    requires
        pixels_wf(*img),
    ensures
        text_result(r) == sixel_spec(img.width, img.height, img.data@),
{
    let w = img.width;
    let h = img.height;
    if w == 0 || h == 0 {
        proof {
            reveal_strlit("zero-dimension image");
        }
        return Err(String::from_str("zero-dimension image"));
    }
    let dl = img.data.len();
    let wu = w as usize;
    let hu = h as usize;
    proof {
        assert(w * h <= w * h * 3) by (nonlinear_arith)
            requires
                w >= 0,
                h >= 0,
        ;
        assert(w * h * 3 == 3 * (w * h)) by (nonlinear_arith);
    }
    let npx = wu * hu;
    let palette = build_palette(&img.data, npx);
    let ix = index_pixels(&img.data, npx, &palette);
    let ghost pal = colors_of(palette@);
    let ghost pix = pixel_indices(img.data@, npx as int, pal);
    proof {
        reveal_strlit("\x1bP0;0;0q");
        reveal_strlit("\"1;1;");
        reveal_strlit(";");
        reveal_strlit("#");
        reveal_strlit(";2;");
        reveal_strlit("-");
        reveal_strlit("\x1b\\");
        lemma_palette_props(img.data@, npx as int);
    }
    let mut out = String::from_str("\x1bP0;0;0q");
    out.append("\"1;1;");
    out.append(decimal_string(wu).as_str());
    out.append(";");
    out.append(decimal_string(hu).as_str());
    let ghost head = out@;
    let mut k: usize = 0;
    while k < palette.len()
        invariant
            pal == colors_of(palette@),
            rgb_colors(pal),
            k <= palette@.len(),
            head + palette_entries(pal, 0) == out@ + palette_entries(pal, k as int),
        decreases palette@.len() - k,
    {
        let q = palette[k];
        proof {
            assert(pal[k as int] == q@);
        }
        let ghost before = out@;
        out.append("#");
        out.append(decimal_string(k).as_str());
        out.append(";2;");
        out.append(decimal_string(((q[0] as u32) * 100 / 255) as usize).as_str());
        out.append(";");
        out.append(decimal_string(((q[1] as u32) * 100 / 255) as usize).as_str());
        out.append(";");
        out.append(decimal_string(((q[2] as u32) * 100 / 255) as usize).as_str());
        proof {
            assert(out@ + palette_entries(pal, k + 1) =~= before + palette_entries(pal, k as int));
        }
        k = k + 1;
    }
    let ghost mid = out@;
    proof {
        assert forall|p: int| 0 <= p < pix.len() implies pix[p] == ix@[p] as int by {}
    }
    let mut y0: usize = 0;
    while y0 < hu
        invariant
            ix@.len() == wu * hu,
            pix.len() == ix@.len(),
            forall|p: int| 0 <= p < pix.len() ==> pix[p] == ix@[p] as int,
            y0 <= hu,
            mid + bands_from(pix, wu as int, hu as int, palette@.len() as int, 0) == out@
                + bands_from(pix, wu as int, hu as int, palette@.len() as int, y0 as int),
        decreases hu - y0,
    {
        let n = if hu - y0 < BAND_HEIGHT {
            hu - y0
        } else {
            BAND_HEIGHT
        };
        let ghost before = out@;
        emit_band(&mut out, &ix, wu, hu, y0, n, palette.len(), Ghost(pix));
        out.append("-");
        let next = if hu - y0 > BAND_HEIGHT {
            y0 + BAND_HEIGHT
        } else {
            hu
        };
        proof {
            let npal = palette@.len() as int;
            if next == hu {
                assert(bands_from(pix, wu as int, hu as int, npal, y0 + 6) =~= Seq::<char>::empty());
                assert(bands_from(pix, wu as int, hu as int, npal, hu as int) =~= Seq::<char>::empty());
            }
            assert(out@ + bands_from(pix, wu as int, hu as int, npal, next as int) =~= before
                + bands_from(pix, wu as int, hu as int, npal, y0 as int));
        }
        y0 = next;
    }
    out.append("\x1b\\");
    proof {
        assert(out@ =~= sixel_text(w, h, img.data@));
    }
    Ok(out)
}

} // verus!
