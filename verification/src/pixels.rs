use vstd::prelude::*;

verus! {

/// Byte `c` (0 = first channel, 3 = alpha) of pixel `(x, y)` in a tightly
/// packed 4-byte-per-pixel image of width `w`.
pub open spec fn px(p: Seq<u8>, w: int, x: int, y: int, c: int) -> u8 {
    p[(y * w + x) * 4 + c]
}

/// A pixel counts as visible when its alpha exceeds 8.
pub open spec fn opaque(p: Seq<u8>, w: int, x: int, y: int) -> bool {
    px(p, w, x, y, 3) > 8
}

pub open spec fn in_image(w: int, h: int, x: int, y: int) -> bool {
    0 <= x < w && 0 <= y < h
}

/// Some pixel of the `w` x `h` image is visible.
pub open spec fn has_opaque(p: Seq<u8>, w: int, h: int) -> bool {
    exists|x: int, y: int| in_image(w, h, x, y) && #[trigger] opaque(p, w, x, y)
}

/// `(x0, y0, x1, y1)` is the smallest inclusive rectangle holding every
/// visible pixel: it contains them all and each of its four edges touches one.
pub open spec fn is_tight_box(p: Seq<u8>, w: int, h: int, b: (int, int, int, int)) -> bool {
    let (x0, y0, x1, y1) = b;
    &&& 0 <= x0 <= x1 < w
    &&& 0 <= y0 <= y1 < h
    &&& forall|x: int, y: int|
        in_image(w, h, x, y) && #[trigger] opaque(p, w, x, y) ==> x0 <= x <= x1 && y0 <= y <= y1
    &&& exists|y: int| 0 <= y < h && #[trigger] opaque(p, w, x0, y)
    &&& exists|y: int| 0 <= y < h && #[trigger] opaque(p, w, x1, y)
    &&& exists|x: int| 0 <= x < w && #[trigger] opaque(p, w, x, y0)
    &&& exists|x: int| 0 <= x < w && #[trigger] opaque(p, w, x, y1)
}

/// The bounding box of the visible pixels (meaningful when there is one).
pub open spec fn opaque_box(p: Seq<u8>, w: int, h: int) -> (int, int, int, int) {
    choose|b: (int, int, int, int)| is_tight_box(p, w, h, b)
}

/// Size limits under which every byte offset of a `w` x `h` image fits in a `u32`
/// and the buffer holds all of it.
pub open spec fn image_fits(len: int, w: int, h: int) -> bool {
    &&& w * h * 4 <= len
    &&& w * h * 4 <= u32::MAX
}

/// The `nw` x `nh` rectangle at `(x0, y0)` of a `w`-wide image, as a packed
/// 4-byte-per-pixel buffer.
pub open spec fn cropped(p: Seq<u8>, w: int, x0: int, y0: int, nw: int, nh: int) -> Seq<u8> {
    Seq::new(
        (nw * nh * 4) as nat,
        |i: int| px(p, w, (i / 4) % nw + x0, (i / 4) / nw + y0, i % 4),
    )
}

/// The image with its transparent margins cut away, with its width and height.
pub open spec fn trimmed(p: Seq<u8>, w: int, h: int) -> (Seq<u8>, int, int) {
    if w == 0 || h == 0 || !has_opaque(p, w, h) {
        (p, w, h)
    } else {
        let (x0, y0, x1, y1) = opaque_box(p, w, h);
        (cropped(p, w, x0, y0, x1 - x0 + 1, y1 - y0 + 1), x1 - x0 + 1, y1 - y0 + 1)
    }
}

/// Every byte offset of a `nw` x `nh` image splits into a pixel position and a channel.
pub proof fn lemma_crop_index(i: int, nw: int, nh: int)
    requires
        0 < nw,
        0 <= i < nw * nh * 4,
    ensures
        0 <= (i / 4) % nw < nw,
        0 <= (i / 4) / nw < nh,
        0 <= i % 4 < 4,
        i == (((i / 4) / nw) * nw + (i / 4) % nw) * 4 + i % 4,
{
    let j = i / 4;
    vstd::arithmetic::div_mod::lemma_fundamental_div_mod(i, 4);
    vstd::arithmetic::div_mod::lemma_fundamental_div_mod(j, nw);
    vstd::arithmetic::div_mod::lemma_mod_pos_bound(j, nw);
    assert(0 <= j < nw * nh);
    let y = j / nw;
    let x = j % nw;
    assert(0 <= y < nh) by (nonlinear_arith)
        requires
            j == nw * y + x,
            0 <= x < nw,
            0 <= j < nw * nh,
    ;
    assert(y * nw == nw * y) by (nonlinear_arith);
}

pub proof fn lemma_pixel_offset(w: int, h: int, x: int, y: int)
    requires
        in_image(w, h, x, y),
    ensures
        0 <= y * w + x < w * h,
        0 <= (y * w + x) * 4 + 3 < w * h * 4,
        y * w + x + 1 <= w * h,
{
    assert(0 <= y * w) by (nonlinear_arith)
        requires
            0 <= y,
            0 < w,
    ;
    assert(y * w + x < w * h) by (nonlinear_arith)
        requires
            0 <= x < w,
            0 <= y < h,
    ;
}

/// Two tight boxes of the same image are equal.
pub proof fn lemma_tight_box_unique(p: Seq<u8>, w: int, h: int, a: (int, int, int, int), b: (int, int, int, int))
    requires
        is_tight_box(p, w, h, a),
        is_tight_box(p, w, h, b),
    ensures
        a == b,
{
    let ya0 = choose|y: int| 0 <= y < h && #[trigger] opaque(p, w, a.0, y);
    let yb0 = choose|y: int| 0 <= y < h && #[trigger] opaque(p, w, b.0, y);
    let ya1 = choose|y: int| 0 <= y < h && #[trigger] opaque(p, w, a.2, y);
    let yb1 = choose|y: int| 0 <= y < h && #[trigger] opaque(p, w, b.2, y);
    let xa0 = choose|x: int| 0 <= x < w && #[trigger] opaque(p, w, x, a.1);
    let xb0 = choose|x: int| 0 <= x < w && #[trigger] opaque(p, w, x, b.1);
    let xa1 = choose|x: int| 0 <= x < w && #[trigger] opaque(p, w, x, a.3);
    let xb1 = choose|x: int| 0 <= x < w && #[trigger] opaque(p, w, x, b.3);
    assert(in_image(w, h, a.0, ya0));
    assert(in_image(w, h, b.0, yb0));
    assert(in_image(w, h, a.2, ya1));
    assert(in_image(w, h, b.2, yb1));
    assert(in_image(w, h, xa0, a.1));
    assert(in_image(w, h, xb0, b.1));
    assert(in_image(w, h, xa1, a.3));
    assert(in_image(w, h, xb1, b.3));
}

/// Finds the bounding box of the pixels whose alpha exceeds 8, or `None` when
/// there is no such pixel.
pub fn opaque_bounds(pixels: &Vec<u8>, w: u32, h: u32) -> (r: Option<(u32, u32, u32, u32)>)
    requires
        image_fits(pixels@.len() as int, w as int, h as int),
    ensures
        r is None <==> !has_opaque(pixels@, w as int, h as int),
        r matches Some(b) ==> is_tight_box(
            pixels@,
            w as int,
            h as int,
            (b.0 as int, b.1 as int, b.2 as int, b.3 as int),
        ),
{
    let ghost p = pixels@;
    let ghost wi = w as int;
    let ghost hi = h as int;
    let mut min_x = w;
    let mut min_y = h;
    let mut max_x: u32 = 0;
    let mut max_y: u32 = 0;
    let mut found = false;
    let mut y: u32 = 0;
    while y < h
        invariant
            p == pixels@,
            wi == w,
            hi == h,
            image_fits(p.len() as int, wi, hi),
            0 <= y <= h,
            found <==> exists|x: int, yy: int|
                0 <= x < wi && 0 <= yy < y && #[trigger] opaque(p, wi, x, yy),
            found ==> {
                &&& min_x <= max_x < w
                &&& min_y <= max_y < y
                &&& forall|x: int, yy: int|
                    0 <= x < wi && 0 <= yy < y && #[trigger] opaque(p, wi, x, yy) ==> min_x <= x
                        <= max_x && min_y <= yy <= max_y
                &&& exists|yy: int| 0 <= yy < y && #[trigger] opaque(p, wi, min_x as int, yy)
                &&& exists|yy: int| 0 <= yy < y && #[trigger] opaque(p, wi, max_x as int, yy)
                &&& exists|x: int| 0 <= x < wi && #[trigger] opaque(p, wi, x, min_y as int)
                &&& exists|x: int| 0 <= x < wi && #[trigger] opaque(p, wi, x, max_y as int)
            },
            !found ==> min_x == w && min_y == h && max_x == 0 && max_y == 0,
        decreases h - y,
    {
        let mut x: u32 = 0;
        while x < w
            invariant
                p == pixels@,
                wi == w,
                hi == h,
                image_fits(p.len() as int, wi, hi),
                0 <= y < h,
                0 <= x <= w,
                found <==> exists|xx: int, yy: int|
                    0 <= xx < wi && 0 <= yy < hi && (yy < y || (yy == y && xx < x))
                        && #[trigger] opaque(p, wi, xx, yy),
                found ==> {
                    &&& min_x <= max_x < w
                    &&& min_y <= max_y <= y
                    &&& forall|xx: int, yy: int|
                        0 <= xx < wi && 0 <= yy < hi && (yy < y || (yy == y && xx < x))
                            && #[trigger] opaque(p, wi, xx, yy) ==> min_x <= xx <= max_x && min_y
                            <= yy <= max_y
                    &&& exists|yy: int| 0 <= yy <= y && #[trigger] opaque(p, wi, min_x as int, yy)
                    &&& exists|yy: int| 0 <= yy <= y && #[trigger] opaque(p, wi, max_x as int, yy)
                    &&& exists|xx: int| 0 <= xx < wi && #[trigger] opaque(p, wi, xx, min_y as int)
                    &&& exists|xx: int| 0 <= xx < wi && #[trigger] opaque(p, wi, xx, max_y as int)
                },
                !found ==> min_x == w && min_y == h && max_x == 0 && max_y == 0,
            decreases w - x,
        {
            proof {
                lemma_pixel_offset(wi, hi, x as int, y as int);
            }
            let a = pixels[((y * w + x) * 4 + 3) as usize];
            assert(a == px(p, wi, x as int, y as int, 3));
            if a > 8 {
                assert(opaque(p, wi, x as int, y as int));
                found = true;
                if x < min_x {
                    min_x = x;
                }
                if y < min_y {
                    min_y = y;
                }
                if x > max_x {
                    max_x = x;
                }
                if y > max_y {
                    max_y = y;
                }
            }
            x = x + 1;
        }
        y = y + 1;
    }
    if !found {
        return None;
    }
    Some((min_x, min_y, max_x, max_y))
}


/// Copies the `nw` x `nh` rectangle whose top-left corner is `(x0, y0)` out of
/// a `w`-wide image, row by row.
pub fn crop(pixels: &Vec<u8>, w: u32, h: u32, x0: u32, y0: u32, nw: u32, nh: u32) -> (out: Vec<u8>)
    requires
        image_fits(pixels@.len() as int, w as int, h as int),
        x0 + nw <= w,
        y0 + nh <= h,
    ensures
        out@.len() == nw * nh * 4,
        forall|x: int, y: int, c: int|
            0 <= x < nw && 0 <= y < nh && 0 <= c < 4 ==> #[trigger] px(out@, nw as int, x, y, c)
                == px(pixels@, w as int, x + x0, y + y0, c),
        nw > 0 ==> out@ == cropped(pixels@, w as int, x0 as int, y0 as int, nw as int, nh as int),
{
    let ghost p = pixels@;
    let ghost wi = w as int;
    let ghost hi = h as int;
    let ghost nwi = nw as int;
    proof {
        assert(nw * nh <= w * h) by (nonlinear_arith)
            requires
                x0 + nw <= w,
                y0 + nh <= h,
        ;
    }
    let mut out: Vec<u8> = Vec::with_capacity((nw * nh * 4) as usize);
    let mut yy: u32 = 0;
    while yy < nh
        invariant
            p == pixels@,
            wi == w,
            hi == h,
            nwi == nw,
            image_fits(p.len() as int, wi, hi),
            x0 + nw <= w,
            y0 + nh <= h,
            0 <= yy <= nh,
            out@.len() == yy * nw * 4,
            forall|x: int, y: int, c: int|
                0 <= x < nwi && 0 <= y < yy && 0 <= c < 4 ==> #[trigger] px(out@, nwi, x, y, c)
                    == px(p, wi, x + x0, y + y0, c),
        decreases nh - yy,
    {
        let mut xx: u32 = 0;
        while xx < nw
            invariant
                p == pixels@,
                wi == w,
                hi == h,
                nwi == nw,
                image_fits(p.len() as int, wi, hi),
                x0 + nw <= w,
                y0 + nh <= h,
                0 <= yy < nh,
                0 <= xx <= nw,
                out@.len() == (yy * nw + xx) * 4,
                forall|x: int, y: int, c: int|
                    0 <= x < nwi && 0 <= y < yy && 0 <= c < 4 ==> #[trigger] px(out@, nwi, x, y, c)
                        == px(p, wi, x + x0, y + y0, c),
                forall|x: int, c: int|
                    0 <= x < xx && 0 <= c < 4 ==> #[trigger] px(out@, nwi, x, yy as int, c) == px(
                        p,
                        wi,
                        x + x0,
                        yy + y0,
                        c,
                    ),
            decreases nw - xx,
        {
            let sx = xx + x0;
            let sy = yy + y0;
            proof {
                lemma_pixel_offset(wi, hi, sx as int, sy as int);
                lemma_pixel_offset(nwi, nh as int, xx as int, yy as int);
            }
            let i = ((sy * w + sx) * 4) as usize;
            let ghost before = out@;
            out.push(pixels[i]);
            out.push(pixels[i + 1]);
            out.push(pixels[i + 2]);
            out.push(pixels[i + 3]);
            proof {
                let k = (yy * nwi + xx) * 4;
                assert(out@.len() == k + 4);
                assert forall|x: int, y: int, c: int|
                    0 <= x < nwi && 0 <= y < yy && 0 <= c < 4 implies #[trigger] px(out@, nwi, x, y, c)
                        == px(p, wi, x + x0, y + y0, c) by {
                    assert((y * nwi + x) * 4 + c < k) by (nonlinear_arith)
                        requires
                            0 <= x < nwi,
                            0 <= y < yy,
                            0 <= c < 4,
                            0 <= xx,
                            k == (yy * nwi + xx) * 4,
                    ;
                    assert(px(out@, nwi, x, y, c) == px(before, nwi, x, y, c));
                }
                assert forall|x: int, c: int|
                    0 <= x < xx + 1 && 0 <= c < 4 implies #[trigger] px(out@, nwi, x, yy as int, c)
                        == px(p, wi, x + x0, yy + y0, c) by {
                    if x < xx {
                        assert((yy * nwi + x) * 4 + c < k) by (nonlinear_arith)
                            requires
                                x < xx,
                                0 <= c < 4,
                                k == (yy * nwi + xx) * 4,
                        ;
                        assert(px(out@, nwi, x, yy as int, c) == px(before, nwi, x, yy as int, c));
                    }
                }
            }
            xx = xx + 1;
        }
        proof {
            assert((yy * nwi + nwi) * 4 == (yy + 1) * nwi * 4) by (nonlinear_arith);
        }
        yy = yy + 1;
    }
    proof {
        assert(nh * nwi * 4 == nwi * nh * 4) by (nonlinear_arith);
        if nw > 0 {
            let q = cropped(p, wi, x0 as int, y0 as int, nwi, nh as int);
            assert forall|i: int| 0 <= i < out@.len() implies out@[i] == q[i] by {
                lemma_crop_index(i, nwi, nh as int);
                let x = (i / 4) % nwi;
                let y = (i / 4) / nwi;
                let c = i % 4;
                assert(px(out@, nwi, x, y, c) == px(p, wi, x + x0, y + y0, c));
            }
            assert(out@ =~= q);
        }
    }
    out
}

/// Cuts away the fully transparent margins of a `w` x `h` RGBA image: the
/// result is the smallest rectangle that holds every pixel whose alpha exceeds
/// 8, with its width and height. An empty image, or one without such a pixel,
/// comes back unchanged.
pub fn trim_transparent(pixels: Vec<u8>, w: u32, h: u32) -> (r: (Vec<u8>, u32, u32))
    requires
        image_fits(pixels@.len() as int, w as int, h as int),
    ensures
        (w == 0 || h == 0 || !has_opaque(pixels@, w as int, h as int)) ==> r == (pixels, w, h),
        r.0@ == trimmed(pixels@, w as int, h as int).0,
        r.1 == trimmed(pixels@, w as int, h as int).1,
        r.2 == trimmed(pixels@, w as int, h as int).2,
        !(w == 0 || h == 0 || !has_opaque(pixels@, w as int, h as int)) ==> {
            let (x0, y0, x1, y1) = opaque_box(pixels@, w as int, h as int);
            &&& is_tight_box(pixels@, w as int, h as int, (x0, y0, x1, y1))
            &&& r.1 == x1 - x0 + 1
            &&& r.2 == y1 - y0 + 1
            &&& r.0@.len() == r.1 * r.2 * 4
            &&& forall|x: int, y: int, c: int|
                0 <= x < r.1 && 0 <= y < r.2 && 0 <= c < 4 ==> #[trigger] px(r.0@, r.1 as int, x, y, c)
                    == px(pixels@, w as int, x + x0, y + y0, c)
        },
{
    if w == 0 || h == 0 {
        return (pixels, w, h);
    }
    match opaque_bounds(&pixels, w, h) {
        None => (pixels, w, h),
        Some((min_x, min_y, max_x, max_y)) => {
            let ghost b = (min_x as int, min_y as int, max_x as int, max_y as int);
            proof {
                let c = opaque_box(pixels@, w as int, h as int);
                assert(is_tight_box(pixels@, w as int, h as int, c));
                lemma_tight_box_unique(pixels@, w as int, h as int, b, c);
            }
            let nw = max_x - min_x + 1;
            let nh = max_y - min_y + 1;
            let out = crop(&pixels, w, h, min_x, min_y, nw, nh);
            (out, nw, nh)
        },
    }
}


/// Byte length covered by whole 4-byte pixels.
pub open spec fn whole_len(p: Seq<u8>) -> int {
    p.len() - p.len() % 4
}

/// Each whole pixel with its first and third byte exchanged (BGRA to RGBA);
/// trailing bytes of an incomplete pixel stay as they are.
pub open spec fn swap_rb(p: Seq<u8>) -> Seq<u8> {
    Seq::new(
        p.len(),
        |i: int|
            if i < whole_len(p) && i % 4 == 0 {
                p[i + 2]
            } else if i < whole_len(p) && i % 4 == 2 {
                p[i - 2]
            } else {
                p[i]
            },
    )
}

/// Number of pixels among the first `n` whose alpha byte is not zero.
pub open spec fn nonzero_alpha_count(p: Seq<u8>, n: nat) -> nat
    decreases n,
{
    if n == 0 {
        0
    } else {
        nonzero_alpha_count(p, (n - 1) as nat) + if p[4 * (n - 1) + 3] != 0 {
            1nat
        } else {
            0nat
        }
    }
}

/// The image carries a real alpha channel: more than one pixel in 32 has a
/// non-zero alpha.
pub open spec fn has_alpha_channel(p: Seq<u8>) -> bool {
    nonzero_alpha_count(p, (p.len() / 4) as nat) > (p.len() / 4) / 32
}

/// The alpha byte of pixel `k` replaced by `m[k]`, for every whole pixel that
/// `m` covers.
pub open spec fn with_mask_alpha(p: Seq<u8>, m: Seq<u8>) -> Seq<u8> {
    Seq::new(
        p.len(),
        |i: int|
            if i < whole_len(p) && i % 4 == 3 && i / 4 < m.len() {
                m[i / 4]
            } else {
                p[i]
            },
    )
}

/// Every whole pixel made fully opaque.
pub open spec fn fully_opaque(p: Seq<u8>) -> Seq<u8> {
    Seq::new(p.len(), |i: int| if i < whole_len(p) && i % 4 == 3 { 255u8 } else { p[i] })
}

/// The alpha channel an icon ends up with: kept when it is real; otherwise
/// taken from the icon's mask when that could be read, else fully opaque.
pub open spec fn settled_alpha(p: Seq<u8>, mask: Option<Seq<u8>>) -> Seq<u8> {
    if has_alpha_channel(p) {
        p
    } else {
        match mask {
            Some(m) => with_mask_alpha(p, m),
            None => fully_opaque(p),
        }
    }
}

pub proof fn lemma_whole_pixels(len: int)
    requires
        0 <= len,
    ensures
        len - len % 4 == 4 * (len / 4),
        4 * (len / 4) <= len,
        0 <= len % 4 < 4,
{
    vstd::arithmetic::div_mod::lemma_fundamental_div_mod(len, 4);
    vstd::arithmetic::div_mod::lemma_mod_pos_bound(len, 4);
}

/// Reorders each whole BGRA pixel into RGBA, in place.
pub fn bgra_to_rgba(pixels: &mut Vec<u8>)
    ensures
        final(pixels)@ == swap_rb(old(pixels)@),
{
    let ghost p = old(pixels)@;
    proof {
        lemma_whole_pixels(pixels@.len() as int);
    }
    let len = pixels.len();
    let n = len / 4;
    let mut k: usize = 0;
    while k < n
        invariant
            4 * n <= len,
            len == pixels@.len(),
            n == p.len() / 4,
            0 <= k <= n,
            pixels@.len() == p.len(),
            forall|i: int| 0 <= i < 4 * k ==> pixels@[i] == swap_rb(p)[i],
            forall|i: int| 4 * k <= i < p.len() ==> pixels@[i] == p[i],
        decreases n - k,
    {
        let b = pixels[4 * k];
        let r = pixels[4 * k + 2];
        pixels.set(4 * k, r);
        pixels.set(4 * k + 2, b);
        k = k + 1;
    }
    assert(pixels@ =~= swap_rb(p));
}

/// Counts the pixels whose alpha byte is not zero.
pub fn count_nonzero_alpha(pixels: &Vec<u8>) -> (r: usize)
    ensures
        r == nonzero_alpha_count(pixels@, (pixels@.len() / 4) as nat),
{
    proof {
        lemma_whole_pixels(pixels@.len() as int);
    }
    let len = pixels.len();
    let n = len / 4;
    let mut k: usize = 0;
    let mut count: usize = 0;
    while k < n
        invariant
            4 * n <= len,
            len == pixels@.len(),
            n == pixels@.len() / 4,
            0 <= k <= n,
            count == nonzero_alpha_count(pixels@, k as nat),
            count <= k,
        decreases n - k,
    {
        if pixels[4 * k + 3] != 0 {
            count = count + 1;
        }
        k = k + 1;
    }
    count
}

/// Whether the image carries a real alpha channel (more than one pixel in 32
/// with a non-zero alpha).
pub fn alpha_channel_valid(pixels: &Vec<u8>) -> (r: bool)
    ensures
        r == has_alpha_channel(pixels@),
{
    let total = pixels.len() / 4;
    count_nonzero_alpha(pixels) > total / 32
}

/// Sets the alpha byte of each whole pixel `k` to `mask[k]`, as far as the
/// mask reaches.
pub fn apply_mask_alpha(pixels: &mut Vec<u8>, mask: &Vec<u8>)
    ensures
        final(pixels)@ == with_mask_alpha(old(pixels)@, mask@),
{
    let ghost p = old(pixels)@;
    proof {
        lemma_whole_pixels(pixels@.len() as int);
    }
    let len = pixels.len();
    let n = len / 4;
    let mut k: usize = 0;
    while k < n && k < mask.len()
        invariant
            4 * n <= len,
            len == pixels@.len(),
            n == p.len() / 4,
            0 <= k <= n,
            pixels@.len() == p.len(),
            forall|i: int| 0 <= i < 4 * k ==> pixels@[i] == with_mask_alpha(p, mask@)[i],
            forall|i: int| 4 * k <= i < p.len() ==> pixels@[i] == p[i],
        decreases n - k,
    {
        pixels.set(4 * k + 3, mask[k]);
        k = k + 1;
    }
    assert(pixels@ =~= with_mask_alpha(p, mask@));
}

/// Makes every whole pixel fully opaque.
pub fn make_opaque(pixels: &mut Vec<u8>)
    ensures
        final(pixels)@ == fully_opaque(old(pixels)@),
{
    let ghost p = old(pixels)@;
    proof {
        lemma_whole_pixels(pixels@.len() as int);
    }
    let len = pixels.len();
    let n = len / 4;
    let mut k: usize = 0;
    while k < n
        invariant
            4 * n <= len,
            len == pixels@.len(),
            n == p.len() / 4,
            0 <= k <= n,
            pixels@.len() == p.len(),
            forall|i: int| 0 <= i < 4 * k ==> pixels@[i] == fully_opaque(p)[i],
            forall|i: int| 4 * k <= i < p.len() ==> pixels@[i] == p[i],
        decreases n - k,
    {
        pixels.set(4 * k + 3, 255);
        k = k + 1;
    }
    assert(pixels@ =~= fully_opaque(p));
}


/// Entry `(x, y)` of a `w`-wide one-byte-per-pixel grid.
pub open spec fn cell(a: Seq<u8>, w: int, x: int, y: int) -> u8 {
    a[y * w + x]
}

/// Bit of column `x` in a byte of a 1-bit-per-pixel row, highest bit first.
pub open spec fn mask_bit(b: u8, x: int) -> bool {
    (b >> ((7 - x % 8) as u8)) & 1u8 == 1u8
}

/// Alpha that a 1-bit mask gives pixel `(x, y)`: 255 where the bit is set, 0
/// where it is clear, outside the first `rows` rows or beyond the row's
/// `row_bytes` bytes.
pub open spec fn mask_alpha_at(m: Seq<u8>, row_bytes: int, rows: int, x: int, y: int) -> u8 {
    if y < rows && x / 8 < row_bytes && mask_bit(m[y * row_bytes + x / 8], x) {
        255
    } else {
        0
    }
}

/// Expands a top-down 1-bit-per-pixel mask (`plane_h` rows of `row_bytes`
/// bytes each) into one alpha byte per pixel of a `w` x `h` image: a set bit
/// gives 255, a clear one 0. Only the first `min(h, plane_h)` mask rows are
/// read; pixels past them, or past a row's bytes, get 0.
pub fn mask_to_alpha(mask: &Vec<u8>, row_bytes: usize, plane_h: u32, w: u32, h: u32) -> (alpha: Vec<u8>)
    requires
        row_bytes * (if h < plane_h { h } else { plane_h }) <= mask@.len(),
        w * h <= usize::MAX,
    ensures
        alpha@.len() == w * h,
        forall|x: int, y: int|
            0 <= x < w && 0 <= y < h ==> #[trigger] cell(alpha@, w as int, x, y) == mask_alpha_at(
                mask@,
                row_bytes as int,
                (if h < plane_h { h } else { plane_h }) as int,
                x,
                y,
            ),
{
    let rows = if h < plane_h { h } else { plane_h };
    let mlen = mask.len();
    let ghost m = mask@;
    let ghost wi = w as int;
    let ghost rb = row_bytes as int;
    let mut alpha: Vec<u8> = Vec::new();
    let mut y: u32 = 0;
    while y < h
        invariant
            m == mask@,
            wi == w,
            rb == row_bytes,
            rows == (if h < plane_h { h } else { plane_h }),
            row_bytes * rows <= m.len(),
            mlen == m.len(),
            w * h <= usize::MAX,
            0 <= y <= h,
            alpha@.len() == y * w,
            forall|x: int, yy: int|
                0 <= x < wi && 0 <= yy < y ==> #[trigger] cell(alpha@, wi, x, yy) == mask_alpha_at(
                    m,
                    rb,
                    rows as int,
                    x,
                    yy,
                ),
        decreases h - y,
    {
        let mut x: u32 = 0;
        while x < w
            invariant
                m == mask@,
                wi == w,
                rb == row_bytes,
                rows == (if h < plane_h { h } else { plane_h }),
                row_bytes * rows <= m.len(),
                mlen == m.len(),
                w * h <= usize::MAX,
                0 <= y < h,
                0 <= x <= w,
                alpha@.len() == y * w + x,
                forall|xx: int, yy: int|
                    0 <= xx < wi && 0 <= yy < y ==> #[trigger] cell(alpha@, wi, xx, yy)
                        == mask_alpha_at(m, rb, rows as int, xx, yy),
                forall|xx: int|
                    0 <= xx < x ==> #[trigger] cell(alpha@, wi, xx, y as int) == mask_alpha_at(
                        m,
                        rb,
                        rows as int,
                        xx,
                        y as int,
                    ),
            decreases w - x,
        {
            proof {
                assert(y * w + x < w * h) by (nonlinear_arith)
                    requires
                        0 <= x < w,
                        0 <= y < h,
                ;
            }
            let byte_idx = (x / 8) as usize;
            let mut value: u8 = 0;
            if y < rows && byte_idx < row_bytes {
                proof {
                    assert((y as int) * rb + byte_idx < rb * rows) by (nonlinear_arith)
                        requires
                            0 <= y < rows,
                            0 <= byte_idx < rb,
                    ;
                    assert(0 <= (y as int) * rb) by (nonlinear_arith)
                        requires
                            0 <= y,
                            0 <= rb,
                    ;
                }
                let byte = mask[(y as usize) * row_bytes + byte_idx];
                let shift: u8 = (7 - x % 8) as u8;
                if (byte >> shift) & 1u8 == 1u8 {
                    value = 255;
                }
            }
            assert(value == mask_alpha_at(m, rb, rows as int, x as int, y as int));
            let ghost before = alpha@;
            alpha.push(value);
            proof {
                assert forall|xx: int, yy: int|
                    0 <= xx < wi && 0 <= yy < y implies #[trigger] cell(alpha@, wi, xx, yy)
                        == mask_alpha_at(m, rb, rows as int, xx, yy) by {
                    assert(yy * wi + xx < y * wi) by (nonlinear_arith)
                        requires
                            0 <= xx < wi,
                            0 <= yy < y,
                    ;
                    assert(cell(alpha@, wi, xx, yy) == cell(before, wi, xx, yy));
                }
                assert forall|xx: int|
                    0 <= xx < x + 1 implies #[trigger] cell(alpha@, wi, xx, y as int)
                        == mask_alpha_at(m, rb, rows as int, xx, y as int) by {
                    if xx < x {
                        assert(cell(alpha@, wi, xx, y as int) == cell(before, wi, xx, y as int));
                    }
                }
            }
            x = x + 1;
        }
        proof {
            assert(y * w + w == (y + 1) * w) by (nonlinear_arith);
        }
        y = y + 1;
    }
    proof {
        assert(h * w == w * h) by (nonlinear_arith);
    }
    alpha
}


/// The PNG file that the `image` crate's `PngEncoder` writes for an 8-bit RGBA
/// image of the given size, or `None` where it reports an error.
pub uninterp spec fn png_rgba8(pixels: Seq<u8>, width: u32, height: u32) -> Option<Seq<u8>>;

pub open spec fn bytes_view(o: Option<Vec<u8>>) -> Option<Seq<u8>> {
    match o {
        Some(v) => Some(v@),
        None => None,
    }
}

/// `image::codecs::png::PngEncoder::new` followed by `ImageEncoder::write_image`
/// with `ExtendedColorType::Rgba8`. The encoder asserts that the buffer holds
/// exactly `width * height * 4` bytes, so that is required; what it writes is
/// a function of the pixels and the size, named `png_rgba8`, and an encoder
/// error becomes `None`.
#[verifier::external_body]
fn png_encode_rgba8(pixels: &[u8], width: u32, height: u32) -> (r: Option<Vec<u8>>)
    requires
        pixels@.len() == width * height * 4,
    ensures
        bytes_view(r) == png_rgba8(pixels@, width, height),
{
    let mut buf: Vec<u8> = Vec::new();
    let res = image::ImageEncoder::write_image(
        image::codecs::png::PngEncoder::new(&mut buf),
        pixels,
        width,
        height,
        image::ExtendedColorType::Rgba8,
    );
    match res {
        Ok(()) => Some(buf),
        Err(_) => None,
    }
}

/// Encodes an RGBA buffer of the given size as PNG. A buffer shorter than
/// `w * h * 4` bytes is not an image of that size and gives `None`, as does a
/// row size `4 * w` that does not fit in `usize`.
pub fn encode_rgba_png(pixels: &Vec<u8>, w: u32, h: u32) -> (r: Option<Vec<u8>>)
    requires
        pixels@.len() <= w * h * 4,
    ensures
        bytes_view(r) == (if 4 * w <= usize::MAX && pixels@.len() == w * h * 4 {
            png_rgba8(pixels@, w, h)
        } else {
            None
        }),
{
    let len = pixels.len();
    proof {
        assert((4 * (w as int)) * (h as int) == w * h * 4) by (nonlinear_arith);
    }
    let fits = match 4usize.checked_mul(w as usize) {
        Some(row) => match row.checked_mul(h as usize) {
            Some(need) => need <= len,
            None => false,
        },
        None => false,
    };
    if !fits {
        return None;
    }
    png_encode_rgba8(pixels.as_slice(), w, h)
}

/// The PNG made from a `w` x `h` BGRA icon bitmap: channels reordered to RGBA,
/// the alpha settled (kept when real, else from the mask when one was read,
/// else opaque), transparent margins cut away, then encoded.
pub open spec fn icon_png(bgra: Seq<u8>, w: int, h: int, mask: Option<Seq<u8>>) -> Option<Seq<u8>> {
    let t = trimmed(settled_alpha(swap_rb(bgra), mask), w, h);
    png_rgba8(t.0, t.1 as u32, t.2 as u32)
}

/// Turns a `w` x `h` BGRA icon bitmap into PNG bytes: reorders channels,
/// settles the alpha channel (a real one is kept; otherwise the mask's alpha
/// when the mask was read, else full opacity), trims transparent margins and
/// encodes.
pub fn icon_pixels_to_png(bgra: Vec<u8>, w: u32, h: u32, mask: Option<Vec<u8>>) -> (r: Option<Vec<u8>>)
    requires
        bgra@.len() == w * h * 4,
        w * h * 4 <= u32::MAX,
        w > 0,
        h > 0,
    ensures
        bytes_view(r) == icon_png(bgra@, w as int, h as int, bytes_view(mask)),
{
    let ghost p0 = bgra@;
    let mut pixels = bgra;
    bgra_to_rgba(&mut pixels);
    if !alpha_channel_valid(&pixels) {
        match &mask {
            Some(m) => apply_mask_alpha(&mut pixels, m),
            None => make_opaque(&mut pixels),
        }
    }
    assert(pixels@ == settled_alpha(swap_rb(p0), bytes_view(mask)));
    let (t, tw, th) = trim_transparent(pixels, w, h);
    proof {
        assert(t@.len() == tw * th * 4);
        assert(1 <= tw <= w && 1 <= th <= h);
        assert(tw * th * 4 <= u32::MAX) by (nonlinear_arith)
            requires
                1 <= tw <= w,
                1 <= th <= h,
                w * h * 4 <= u32::MAX,
        ;
        assert(4 * tw <= tw * th * 4) by (nonlinear_arith)
            requires
                th >= 1,
                tw >= 0,
        ;
    }
    encode_rgba_png(&t, tw, th)
}


/// Every byte of a cropped image is the matching byte of the source.
pub proof fn lemma_cropped_px(p: Seq<u8>, w: int, x0: int, y0: int, nw: int, nh: int, x: int, y: int, c: int)
    requires
        0 < nw,
        0 <= x < nw,
        0 <= y < nh,
        0 <= c < 4,
    ensures
        px(cropped(p, w, x0, y0, nw, nh), nw, x, y, c) == px(p, w, x + x0, y + y0, c),
{
    let i = (y * nw + x) * 4 + c;
    lemma_pixel_offset(nw, nh, x, y);
    assert(0 <= i < nw * nh * 4);
    lemma_crop_index(i, nw, nh);
    vstd::arithmetic::div_mod::lemma_fundamental_div_mod_converse(i, 4, y * nw + x, c);
    vstd::arithmetic::div_mod::lemma_fundamental_div_mod_converse(y * nw + x, nw, y, x);
}

pub proof fn lemma_tight_box_intro(
    p: Seq<u8>,
    w: int,
    h: int,
    b: (int, int, int, int),
    ya: int,
    yb: int,
    xa: int,
    xb: int,
)
    requires
        0 <= b.0 <= b.2 < w,
        0 <= b.1 <= b.3 < h,
        forall|x: int, y: int|
            in_image(w, h, x, y) && #[trigger] opaque(p, w, x, y) ==> b.0 <= x <= b.2 && b.1 <= y
                <= b.3,
        0 <= ya < h && opaque(p, w, b.0, ya),
        0 <= yb < h && opaque(p, w, b.2, yb),
        0 <= xa < w && opaque(p, w, xa, b.1),
        0 <= xb < w && opaque(p, w, xb, b.3),
    ensures
        is_tight_box(p, w, h, b),
{
}

pub proof fn lemma_least_exists(pr: spec_fn(int) -> bool, n: int)
    requires
        exists|k: int| 0 <= k < n && #[trigger] pr(k),
    ensures
        exists|k: int| 0 <= k < n && #[trigger] pr(k) && forall|j: int| 0 <= j < k ==> !#[trigger] pr(j),
    decreases n,
{
    if exists|k: int| 0 <= k < n - 1 && #[trigger] pr(k) {
        lemma_least_exists(pr, n - 1);
    } else {
        let k = choose|k: int| 0 <= k < n && #[trigger] pr(k);
        assert(k == n - 1);
        assert(forall|j: int| 0 <= j < k ==> !#[trigger] pr(j));
    }
}

pub proof fn lemma_greatest_exists(pr: spec_fn(int) -> bool, n: int)
    requires
        exists|k: int| 0 <= k < n && #[trigger] pr(k),
    ensures
        exists|k: int| 0 <= k < n && #[trigger] pr(k) && forall|j: int| k < j < n ==> !#[trigger] pr(j),
    decreases n,
{
    if pr(n - 1) {
        assert(forall|j: int| n - 1 < j < n ==> !#[trigger] pr(j));
    } else {
        lemma_greatest_exists(pr, n - 1);
    }
}

/// Column `k` holds a visible pixel.
pub open spec fn col_visible(p: Seq<u8>, w: int, h: int, k: int) -> bool {
    exists|yy: int| 0 <= yy < h && #[trigger] opaque(p, w, k, yy)
}

/// Row `k` holds a visible pixel.
pub open spec fn row_visible(p: Seq<u8>, w: int, h: int, k: int) -> bool {
    exists|xx: int| 0 <= xx < w && #[trigger] opaque(p, w, xx, k)
}

proof fn lemma_first_col(p: Seq<u8>, w: int, h: int, x: int) -> (k: int)
    requires
        0 <= x < w,
        col_visible(p, w, h, x),
    ensures
        0 <= k <= x,
        col_visible(p, w, h, k),
        forall|j: int| 0 <= j < k ==> !col_visible(p, w, h, j),
{
    let pr = |k: int| col_visible(p, w, h, k);
    assert(pr(x));
    lemma_least_exists(pr, x + 1);
    let k = choose|k: int| 0 <= k < x + 1 && #[trigger] pr(k) && forall|j: int| 0 <= j < k ==> !#[trigger] pr(j);
    assert forall|j: int| 0 <= j < k implies !col_visible(p, w, h, j) by {
        assert(!pr(j));
    }
    k
}

proof fn lemma_last_col(p: Seq<u8>, w: int, h: int, x: int) -> (k: int)
    requires
        0 <= x < w,
        col_visible(p, w, h, x),
    ensures
        x <= k < w,
        col_visible(p, w, h, k),
        forall|j: int| k < j < w ==> !col_visible(p, w, h, j),
{
    let pr = |k: int| x <= k && col_visible(p, w, h, k);
    assert(pr(x));
    lemma_greatest_exists(pr, w);
    let k = choose|k: int| 0 <= k < w && #[trigger] pr(k) && forall|j: int| k < j < w ==> !#[trigger] pr(j);
    assert forall|j: int| k < j < w implies !col_visible(p, w, h, j) by {
        assert(!pr(j));
    }
    k
}

proof fn lemma_first_row(p: Seq<u8>, w: int, h: int, y: int) -> (k: int)
    requires
        0 <= y < h,
        row_visible(p, w, h, y),
    ensures
        0 <= k <= y,
        row_visible(p, w, h, k),
        forall|j: int| 0 <= j < k ==> !row_visible(p, w, h, j),
{
    let pr = |k: int| row_visible(p, w, h, k);
    assert(pr(y));
    lemma_least_exists(pr, y + 1);
    let k = choose|k: int| 0 <= k < y + 1 && #[trigger] pr(k) && forall|j: int| 0 <= j < k ==> !#[trigger] pr(j);
    assert forall|j: int| 0 <= j < k implies !row_visible(p, w, h, j) by {
        assert(!pr(j));
    }
    k
}

proof fn lemma_last_row(p: Seq<u8>, w: int, h: int, y: int) -> (k: int)
    requires
        0 <= y < h,
        row_visible(p, w, h, y),
    ensures
        y <= k < h,
        row_visible(p, w, h, k),
        forall|j: int| k < j < h ==> !row_visible(p, w, h, j),
{
    let pr = |k: int| y <= k && row_visible(p, w, h, k);
    assert(pr(y));
    lemma_greatest_exists(pr, h);
    let k = choose|k: int| 0 <= k < h && #[trigger] pr(k) && forall|j: int| k < j < h ==> !#[trigger] pr(j);
    assert forall|j: int| k < j < h implies !row_visible(p, w, h, j) by {
        assert(!pr(j));
    }
    k
}

/// An image with a visible pixel has a bounding box of its visible pixels.
pub proof fn lemma_box_exists(p: Seq<u8>, w: int, h: int)
    requires
        has_opaque(p, w, h),
    ensures
        is_tight_box(p, w, h, opaque_box(p, w, h)),
{
    let (x, y) = choose|x: int, y: int| in_image(w, h, x, y) && #[trigger] opaque(p, w, x, y);
    assert(col_visible(p, w, h, x));
    assert(row_visible(p, w, h, y));
    let x0 = lemma_first_col(p, w, h, x);
    let x1 = lemma_last_col(p, w, h, x);
    let y0 = lemma_first_row(p, w, h, y);
    let y1 = lemma_last_row(p, w, h, y);
    let ya = choose|yy: int| 0 <= yy < h && #[trigger] opaque(p, w, x0, yy);
    let yb = choose|yy: int| 0 <= yy < h && #[trigger] opaque(p, w, x1, yy);
    let xa = choose|xx: int| 0 <= xx < w && #[trigger] opaque(p, w, xx, y0);
    let xb = choose|xx: int| 0 <= xx < w && #[trigger] opaque(p, w, xx, y1);
    assert forall|xx: int, yy: int| in_image(w, h, xx, yy) && #[trigger] opaque(p, w, xx, yy) implies x0
        <= xx <= x1 && y0 <= yy <= y1 by {
        assert(col_visible(p, w, h, xx));
        assert(row_visible(p, w, h, yy));
    }
    let b = (x0, y0, x1, y1);
    lemma_tight_box_intro(p, w, h, b, ya, yb, xa, xb);
}

/// Trimming keeps every visible pixel: a pixel whose alpha exceeds 8 lies
/// inside the kept rectangle and keeps its four bytes.
pub proof fn law_trim_keeps_visible(p: Seq<u8>, w: int, h: int, x: int, y: int, c: int)
    requires
        0 < w,
        0 < h,
        in_image(w, h, x, y),
        opaque(p, w, x, y),
        0 <= c < 4,
    ensures
        ({
            let (t, tw, th) = trimmed(p, w, h);
            let (x0, y0, x1, y1) = opaque_box(p, w, h);
            &&& 0 <= x - x0 < tw
            &&& 0 <= y - y0 < th
            &&& px(t, tw, x - x0, y - y0, c) == px(p, w, x, y, c)
        }),
{
    assert(has_opaque(p, w, h));
    lemma_box_exists(p, w, h);
    let b = opaque_box(p, w, h);
    let (x0, y0, x1, y1) = b;
    assert(x0 <= x <= x1 && y0 <= y <= y1);
    lemma_cropped_px(p, w, x0, y0, x1 - x0 + 1, y1 - y0 + 1, x - x0, y - y0, c);
}

/// Trimming an already trimmed image changes nothing.
pub proof fn law_trim_idempotent(p: Seq<u8>, w: int, h: int)
    requires
        0 < w,
        0 < h,
    ensures
        ({
            let (t, tw, th) = trimmed(p, w, h);
            trimmed(t, tw, th) == (t, tw, th)
        }),
{
    if !has_opaque(p, w, h) {
        return;
    }
    lemma_box_exists(p, w, h);
    let b = opaque_box(p, w, h);
    let (x0, y0, x1, y1) = b;
    let yw = choose|y: int| 0 <= y < h && #[trigger] opaque(p, w, x0, y);
    assert(in_image(w, h, x0, yw));
    assert(has_opaque(p, w, h));
    let nw = x1 - x0 + 1;
    let nh = y1 - y0 + 1;
    let t = cropped(p, w, x0, y0, nw, nh);
    assert(trimmed(p, w, h) == (t, nw, nh));
    // the visible pixels of `t` are those of `p`, shifted
    assert forall|x: int, y: int| in_image(nw, nh, x, y) implies #[trigger] opaque(t, nw, x, y)
        == opaque(p, w, x + x0, y + y0) by {
        lemma_cropped_px(p, w, x0, y0, nw, nh, x, y, 3);
    }
    let full = (0int, 0int, nw - 1, nh - 1);
    let ya = choose|y: int| 0 <= y < h && #[trigger] opaque(p, w, x0, y);
    let yb = choose|y: int| 0 <= y < h && #[trigger] opaque(p, w, x1, y);
    let xa = choose|x: int| 0 <= x < w && #[trigger] opaque(p, w, x, y0);
    let xb = choose|x: int| 0 <= x < w && #[trigger] opaque(p, w, x, y1);
    assert(in_image(w, h, x0, ya) && in_image(w, h, x1, yb));
    assert(in_image(w, h, xa, y0) && in_image(w, h, xb, y1));
    assert(opaque(t, nw, 0, ya - y0));
    assert(opaque(t, nw, nw - 1, yb - y0));
    assert(opaque(t, nw, xa - x0, 0));
    assert(opaque(t, nw, xb - x0, nh - 1));
    assert(y0 <= ya <= y1 && y0 <= yb <= y1 && x0 <= xa <= x1 && x0 <= xb <= x1);
    assert(exists|y: int| 0 <= y < nh && #[trigger] opaque(t, nw, 0, y));
    assert(exists|y: int| 0 <= y < nh && #[trigger] opaque(t, nw, nw - 1, y));
    assert(exists|x: int| 0 <= x < nw && #[trigger] opaque(t, nw, x, 0));
    assert(exists|x: int| 0 <= x < nw && #[trigger] opaque(t, nw, x, nh - 1));
    lemma_tight_box_intro(t, nw, nh, full, ya - y0, yb - y0, xa - x0, xb - x0);
    assert(has_opaque(t, nw, nh)) by {
        assert(in_image(nw, nh, 0, ya - y0));
    }
    let c = opaque_box(t, nw, nh);
    assert(is_tight_box(t, nw, nh, c));
    lemma_tight_box_unique(t, nw, nh, c, full);
    let t2 = cropped(t, nw, 0, 0, nw, nh);
    assert forall|i: int| 0 <= i < t.len() implies t2[i] == t[i] by {
        lemma_crop_index(i, nw, nh);
        let x = (i / 4) % nw;
        let y = (i / 4) / nw;
        let k = i % 4;
        assert(t2[i] == px(t, nw, x, y, k));
    }
    assert(t2 =~= t);
}

} // verus!
