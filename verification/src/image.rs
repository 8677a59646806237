use vstd::prelude::*;
use vstd::arithmetic::div_mod::{
    lemma_div_pos_is_pos, lemma_fundamental_div_mod, lemma_fundamental_div_mod_converse,
    lemma_mod_pos_bound, lemma_multiply_divide_lt,
};
use vstd::arithmetic::mul::lemma_mul_is_commutative;

verus! {

/// One pixel: three 8-bit channels (B, G, R for a captured picture; H, S, V
/// once converted to HSV).
#[derive(Debug, Clone, Copy, PartialEq, Eq, Structural)]
pub struct Pixel {
    pub c0: u8,
    pub c1: u8,
    pub c2: u8,
}

/// A picture of `width` x `height` pixels, stored row by row.
#[derive(Debug, Clone, PartialEq, Eq)]
pub struct Image {
    pub width: usize,
    pub height: usize,
    pub pixels: Vec<Pixel>,
}

/// A rectangle in pixel coordinates: columns `lower_x..upper_x`, rows
/// `lower_y..upper_y`.
#[derive(Debug, Clone, Copy, PartialEq, Eq, Structural)]
pub struct RectPosition {
    pub lower_x: usize,
    pub upper_x: usize,
    pub lower_y: usize,
    pub upper_y: usize,
}

impl Image {
    /// The pixel buffer holds exactly one pixel per position.
    pub open spec fn wf(&self) -> bool {
        self.pixels@.len() == self.width * self.height
    }

    /// The pixel in column `x` of row `y`.
    pub open spec fn at(&self, x: int, y: int) -> Pixel {
        self.pixels@[y * self.width + x]
    }
}

impl RectPosition {
    /// The rectangle is ordered and lies inside a `width` x `height` picture.
    pub open spec fn inside(&self, width: int, height: int) -> bool {
        &&& self.lower_x <= self.upper_x <= width
        &&& self.lower_y <= self.upper_y <= height
    }
}

/// The pixels of the `w` x `h` rectangle whose top left corner is
/// (`lx`, `ly`), row by row.
pub open spec fn region(img: Image, lx: int, ly: int, w: int, h: int) -> Seq<Pixel> {
    Seq::new((w * h) as nat, |i: int| img.at(lx + i % w, ly + i / w))
}

/// Channel `c` (0, 1 or 2) of a pixel.
pub open spec fn channel(p: Pixel, c: int) -> int {
    if c == 0 {
        p.c0 as int
    } else if c == 1 {
        p.c1 as int
    } else {
        p.c2 as int
    }
}

/// The sum of channel `c` over a sequence of pixels.
pub open spec fn channel_sum(s: Seq<Pixel>, c: int) -> int
    decreases s.len(),
{
    if s.len() == 0 {
        0
    } else {
        channel_sum(s.drop_last(), c) + channel(s.last(), c)
    }
}

/// All three channel sums of `s` fit in a `u32`.
pub open spec fn sums_fit_u32(s: Seq<Pixel>) -> bool {
    &&& channel_sum(s, 0) <= u32::MAX
    &&& channel_sum(s, 1) <= u32::MAX
    &&& channel_sum(s, 2) <= u32::MAX
}

/// The integer mean of channel `c` over a non-empty sequence.
pub open spec fn channel_mean(s: Seq<Pixel>, c: int) -> int {
    channel_sum(s, c) / (s.len() as int)
}

proof fn lemma_index_of_position(x: int, y: int, w: int)
    requires
        0 <= x < w,
        0 <= y,
    ensures
        (y * w + x) % w == x,
        (y * w + x) / w == y,
{
    lemma_fundamental_div_mod_converse(y * w + x, w, y, x);
}

pub(crate) proof fn lemma_position_in_buffer(x: int, y: int, w: int, h: int)
    requires
        0 <= x < w,
        0 <= y < h,
    ensures
        0 <= y * w + x < w * h,
{
    assert(0 <= y * w + x < w * h) by (nonlinear_arith)
        requires
            0 <= x < w,
            0 <= y < h,
    ;
}

/// Copies out the part of `image` that `pos` covers.
pub fn cut_rect(image: &Image, pos: &RectPosition) -> (out: Image)
    requires
        image.wf(),
        pos.inside(image.width as int, image.height as int),
    ensures
        out.wf(),
        out.width == pos.upper_x - pos.lower_x,
        out.height == pos.upper_y - pos.lower_y,
        out.pixels@ == region(
            *image,
            pos.lower_x as int,
            pos.lower_y as int,
            out.width as int,
            out.height as int,
        ),
{
    let w = pos.upper_x - pos.lower_x;
    let h = pos.upper_y - pos.lower_y;
    let ghost lx = pos.lower_x as int;
    let ghost ly = pos.lower_y as int;
    let mut pixels: Vec<Pixel> = Vec::new();
    let mut y: usize = 0;
    while y < h
        invariant
            image.wf(),
            pos.inside(image.width as int, image.height as int),
            w == pos.upper_x - pos.lower_x,
            h == pos.upper_y - pos.lower_y,
            lx == pos.lower_x,
            ly == pos.lower_y,
            y <= h,
            pixels@.len() == y * w,
            forall|i: int|
                0 <= i < y * w ==> #[trigger] pixels@[i] == image.at(lx + i % (w as int), ly + i / (w as int)),
        decreases h - y,
    {
        let mut x: usize = 0;
        while x < w
            invariant
                image.wf(),
                pos.inside(image.width as int, image.height as int),
                w == pos.upper_x - pos.lower_x,
                h == pos.upper_y - pos.lower_y,
                lx == pos.lower_x,
                ly == pos.lower_y,
                y < h,
                x <= w,
                pixels@.len() == y * w + x,
                forall|i: int|
                    0 <= i < y * w + x ==> #[trigger] pixels@[i] == image.at(lx + i % (w as int), ly + i / (w as int)),
            decreases w - x,
        {
            let row = y + pos.lower_y;
            let col = x + pos.lower_x;
            proof {
                lemma_position_in_buffer(col as int, row as int, image.width as int, image.height as int);
                lemma_index_of_position(x as int, y as int, w as int);
            }
            assert(image.pixels@.len() == image.pixels.len());
            let idx = row * image.width + col;
            let p = image.pixels[idx];
            pixels.push(p);
            proof {
                let k = y * w + x;
                assert(pixels@[k] == image.at(lx + k % (w as int), ly + k / (w as int)));
            }
            x = x + 1;
        }
        proof {
            assert((y + 1) * w == y * w + w) by (nonlinear_arith);
        }
        y = y + 1;
    }
    assert(pixels@.len() == w * h) by (nonlinear_arith)
        requires
            pixels@.len() == y * w,
            y == h,
    ;
    let out = Image { width: w, height: h, pixels };
    assert(out.pixels@ =~= region(*image, lx, ly, w as int, h as int));
    out
}


proof fn lemma_channel_sum_step(s: Seq<Pixel>, i: int, c: int)
    requires
        0 <= i < s.len(),
    ensures
        channel_sum(s.take(i + 1), c) == channel_sum(s.take(i), c) + channel(s[i], c),
{
    assert(s.take(i + 1).drop_last() =~= s.take(i));
}

proof fn lemma_channel_sum_prefix_le(s: Seq<Pixel>, i: int, c: int)
    requires
        0 <= i <= s.len(),
    ensures
        0 <= channel_sum(s.take(i), c) <= channel_sum(s, c),
    decreases s.len() - i,
{
    if i == s.len() {
        assert(s.take(i) =~= s);
        lemma_channel_sum_nonneg(s, c);
    } else {
        lemma_channel_sum_prefix_le(s, i + 1, c);
        lemma_channel_sum_step(s, i, c);
        lemma_channel_sum_nonneg(s.take(i), c);
    }
}

proof fn lemma_channel_sum_nonneg(s: Seq<Pixel>, c: int)
    ensures
        0 <= channel_sum(s, c),
    decreases s.len(),
{
    if s.len() > 0 {
        lemma_channel_sum_nonneg(s.drop_last(), c);
    }
}

proof fn lemma_channel_sum_bound(s: Seq<Pixel>, c: int)
    ensures
        channel_sum(s, c) <= 255 * s.len(),
    decreases s.len(),
{
    if s.len() > 0 {
        lemma_channel_sum_bound(s.drop_last(), c);
    }
}

proof fn lemma_mean_is_byte(s: Seq<Pixel>, c: int)
    requires
        s.len() > 0,
    ensures
        0 <= channel_mean(s, c) <= 255,
{
    lemma_channel_sum_bound(s, c);
    lemma_channel_sum_nonneg(s, c);
    let total = channel_sum(s, c);
    let n = s.len() as int;
    assert(0 <= total / n <= 255) by (nonlinear_arith)
        requires
            0 <= total <= 255 * n,
            n > 0,
    ;
}

/// The per-channel integer mean of a non-empty run of pixels.
pub fn mean_vec(vec: &[Pixel]) -> (mean: (u8, u8, u8))
    requires
        0 < vec@.len() <= u32::MAX,
        sums_fit_u32(vec@),
    ensures
        mean.0 == channel_mean(vec@, 0),
        mean.1 == channel_mean(vec@, 1),
        mean.2 == channel_mean(vec@, 2),
{
    let mut h: u32 = 0;
    let mut s: u32 = 0;
    let mut v: u32 = 0;
    let mut i: usize = 0;
    while i < vec.len()
        invariant
            i <= vec@.len(),
            sums_fit_u32(vec@),
            h == channel_sum(vec@.take(i as int), 0),
            s == channel_sum(vec@.take(i as int), 1),
            v == channel_sum(vec@.take(i as int), 2),
        decreases vec@.len() - i,
    {
        proof {
            lemma_channel_sum_step(vec@, i as int, 0);
            lemma_channel_sum_step(vec@, i as int, 1);
            lemma_channel_sum_step(vec@, i as int, 2);
            lemma_channel_sum_prefix_le(vec@, i + 1, 0);
            lemma_channel_sum_prefix_le(vec@, i + 1, 1);
            lemma_channel_sum_prefix_le(vec@, i + 1, 2);
        }
        let p = vec[i];
        h = h + p.c0 as u32;
        s = s + p.c1 as u32;
        v = v + p.c2 as u32;
        i = i + 1;
    }
    assert(vec@.take(vec@.len() as int) =~= vec@);
    proof {
        lemma_mean_is_byte(vec@, 0);
        lemma_mean_is_byte(vec@, 1);
        lemma_mean_is_byte(vec@, 2);
    }
    let n = vec.len() as u32;
    h = h / n;
    s = s / n;
    v = v / n;
    (h as u8, s as u8, v as u8)
}

/// `|a - b|` of two bytes.
pub open spec fn byte_diff(a: u8, b: u8) -> u8 {
    if a >= b {
        (a - b) as u8
    } else {
        (b - a) as u8
    }
}

/// The channel-wise absolute difference of two pixels.
pub open spec fn pixel_diff(a: Pixel, b: Pixel) -> Pixel {
    Pixel { c0: byte_diff(a.c0, b.c0), c1: byte_diff(a.c1, b.c1), c2: byte_diff(a.c2, b.c2) }
}

/// The pixel-wise absolute difference of two equally long runs of pixels.
pub open spec fn diff_pixels(a: Seq<Pixel>, b: Seq<Pixel>) -> Seq<Pixel> {
    Seq::new(a.len(), |i: int| pixel_diff(a[i], b[i]))
}

fn byte_absdiff(a: u8, b: u8) -> (d: u8)
    ensures
        d == byte_diff(a, b),
{
    if a >= b {
        a - b
    } else {
        b - a
    }
}

/// The per-pixel, per-channel absolute difference of two pictures of the
/// same size.
pub fn absdiff(src1: &Image, src2: &Image) -> (dst: Image)
    requires
        src1.wf(),
        src2.wf(),
        src1.width == src2.width,
        src1.height == src2.height,
    ensures
        dst.wf(),
        dst.width == src1.width,
        dst.height == src1.height,
        dst.pixels@ == diff_pixels(src1.pixels@, src2.pixels@),
{
    let n = src1.pixels.len();
    let mut pixels: Vec<Pixel> = Vec::new();
    let mut i: usize = 0;
    while i < n
        invariant
            n == src1.pixels@.len(),
            n == src2.pixels@.len(),
            i <= n,
            pixels@.len() == i,
            forall|j: int|
                0 <= j < i ==> #[trigger] pixels@[j] == pixel_diff(src1.pixels@[j], src2.pixels@[j]),
        decreases n - i,
    {
        let a = src1.pixels[i];
        let b = src2.pixels[i];
        pixels.push(
            Pixel {
                c0: byte_absdiff(a.c0, b.c0),
                c1: byte_absdiff(a.c1, b.c1),
                c2: byte_absdiff(a.c2, b.c2),
            },
        );
        i = i + 1;
    }
    let dst = Image { width: src1.width, height: src1.height, pixels };
    assert(dst.pixels@ =~= diff_pixels(src1.pixels@, src2.pixels@));
    dst
}

/// The pixel lies in the colour box that `filter_color` keeps: first channel
/// at least 100, the other two at most 100.
pub open spec fn in_filter_range(p: Pixel) -> bool {
    &&& 100 <= p.c0
    &&& p.c1 <= 100
    &&& p.c2 <= 100
}

/// A pixel kept by `filter_color` is unchanged; any other becomes black.
pub open spec fn filtered_pixel(p: Pixel) -> Pixel {
    if in_filter_range(p) {
        p
    } else {
        Pixel { c0: 0, c1: 0, c2: 0 }
    }
}

/// Keeps the pixels whose channels lie in the box [100, 255] x [0, 100] x
/// [0, 100] and blacks out the rest.
pub fn filter_color(image: Image) -> (filtered: Image)
    ensures
        filtered.width == image.width,
        filtered.height == image.height,
        filtered.pixels@ == image.pixels@.map_values(|p: Pixel| filtered_pixel(p)),
{
    let n = image.pixels.len();
    let mut pixels: Vec<Pixel> = Vec::new();
    let mut i: usize = 0;
    while i < n
        invariant
            n == image.pixels@.len(),
            i <= n,
            pixels@.len() == i,
            forall|j: int| 0 <= j < i ==> #[trigger] pixels@[j] == filtered_pixel(image.pixels@[j]),
        decreases n - i,
    {
        let p = image.pixels[i];
        let mask = 100 <= p.c0 && p.c1 <= 100 && p.c2 <= 100;
        if mask {
            pixels.push(p);
        } else {
            pixels.push(Pixel { c0: 0, c1: 0, c2: 0 });
        }
        i = i + 1;
    }
    let filtered = Image { width: image.width, height: image.height, pixels };
    assert(filtered.pixels@ =~= image.pixels@.map_values(|p: Pixel| filtered_pixel(p)));
    filtered
}


/// The black pixel.
pub open spec fn black() -> Pixel {
    Pixel { c0: 0, c1: 0, c2: 0 }
}

/// Filtering a picture that `filter_color` has already filtered changes
/// nothing.
pub proof fn law_filter_color_idempotent(pixels: Seq<Pixel>)
    ensures
        pixels.map_values(|p: Pixel| filtered_pixel(p)).map_values(|p: Pixel| filtered_pixel(p))
            == pixels.map_values(|p: Pixel| filtered_pixel(p)),
{
    assert(pixels.map_values(|p: Pixel| filtered_pixel(p)).map_values(|p: Pixel| filtered_pixel(p))
        =~= pixels.map_values(|p: Pixel| filtered_pixel(p)));
}

/// The difference of two pictures does not depend on their order.
pub proof fn law_absdiff_symmetric(a: Seq<Pixel>, b: Seq<Pixel>)
    requires
        a.len() == b.len(),
    ensures
        diff_pixels(a, b) == diff_pixels(b, a),
{
    assert(diff_pixels(a, b) =~= diff_pixels(b, a));
}

/// The difference of a picture with itself is black all over.
pub proof fn law_absdiff_self_is_black(a: Seq<Pixel>)
    ensures
        diff_pixels(a, a) == Seq::new(a.len(), |i: int| black()),
{
    assert(diff_pixels(a, a) =~= Seq::new(a.len(), |i: int| black()));
}

pub(crate) proof fn lemma_split_index(i: int, w: int, h: int)
    requires
        0 <= i < w * h,
        0 < w,
    ensures
        0 <= i % w < w,
        0 <= i / w < h,
        i == (i / w) * w + i % w,
{
    lemma_mod_pos_bound(i, w);
    lemma_div_pos_is_pos(i, w);
    lemma_multiply_divide_lt(i, w, h);
    lemma_fundamental_div_mod(i, w);
    lemma_mul_is_commutative(w, i / w);
}

/// Cutting a rectangle out of a picture that was itself cut out of `img` at
/// (`lx1`, `ly1`) gives the pixels of the same rectangle, shifted by
/// (`lx1`, `ly1`), cut straight out of `img`.
pub proof fn law_cut_of_cut(
    img: Image,
    inner: Image,
    lx1: int,
    ly1: int,
    lx2: int,
    ly2: int,
    w2: int,
    h2: int,
)
    requires
        inner.pixels@ == region(img, lx1, ly1, inner.width as int, inner.height as int),
        0 <= lx2,
        0 <= ly2,
        0 <= w2,
        0 <= h2,
        lx2 + w2 <= inner.width,
        ly2 + h2 <= inner.height,
    ensures
        region(inner, lx2, ly2, w2, h2) == region(img, lx1 + lx2, ly1 + ly2, w2, h2),
{
    let w1 = inner.width as int;
    let h1 = inner.height as int;
    assert forall|i: int| 0 <= i < w2 * h2 implies #[trigger] region(inner, lx2, ly2, w2, h2)[i]
        == region(img, lx1 + lx2, ly1 + ly2, w2, h2)[i] by {
        lemma_split_index(i, w2, h2);
        let x2 = i % w2;
        let y2 = i / w2;
        let k = (ly2 + y2) * w1 + (lx2 + x2);
        lemma_position_in_buffer(lx2 + x2, ly2 + y2, w1, h1);
        lemma_index_of_position(lx2 + x2, ly2 + y2, w1);
        assert(inner.at(lx2 + x2, ly2 + y2) == inner.pixels@[k]);
        assert(region(img, lx1, ly1, w1, h1)[k] == img.at(lx1 + k % w1, ly1 + k / w1));
    }
    assert(region(inner, lx2, ly2, w2, h2) =~= region(img, lx1 + lx2, ly1 + ly2, w2, h2));
}


/// When channel `c` of every pixel lies in `lo..=hi`, the channel sum lies
/// between `lo` and `hi` times the length.
pub(crate) proof fn lemma_channel_sum_between(s: Seq<Pixel>, c: int, lo: int, hi: int)
    requires
        forall|i: int| 0 <= i < s.len() ==> lo <= #[trigger] channel(s[i], c) <= hi,
    ensures
        lo * s.len() <= channel_sum(s, c) <= hi * s.len(),
    decreases s.len(),
{
    if s.len() > 0 {
        let t = s.drop_last();
        assert forall|i: int| 0 <= i < t.len() implies lo <= #[trigger] channel(t[i], c) <= hi by {
            assert(t[i] == s[i]);
        }
        lemma_channel_sum_between(t, c, lo, hi);
        assert(lo <= channel(s[s.len() - 1], c) <= hi);
        let n = t.len() as int;
        let rest = channel_sum(t, c);
        let last = channel(s.last(), c);
        assert(lo * (n + 1) <= rest + last <= hi * (n + 1)) by (nonlinear_arith)
            requires
                lo * n <= rest <= hi * n,
                lo <= last <= hi,
        ;
    }
}


/// Cutting the whole picture out of itself gives back its pixels.
pub proof fn law_cut_whole_is_identity(img: Image)
    requires
        img.wf(),
    ensures
        region(img, 0, 0, img.width as int, img.height as int) == img.pixels@,
{
    let w = img.width as int;
    let h = img.height as int;
    assert forall|i: int| 0 <= i < w * h implies #[trigger] region(img, 0, 0, w, h)[i]
        == img.pixels@[i] by {
        lemma_split_index(i, w, h);
        assert((i / w) * w + i % w == i);
    }
    assert(region(img, 0, 0, w, h) =~= img.pixels@);
}


/// `filter_color` keeps a pixel unchanged exactly when its first channel lies
/// in 100..=255 and the other two in 0..=100, both ends included, and makes
/// every other pixel black.
pub proof fn law_filter_keeps_inclusive_box(p: Pixel)
    ensures
        (100 <= p.c0 <= 255 && 0 <= p.c1 <= 100 && 0 <= p.c2 <= 100) ==> filtered_pixel(p) == p,
        !(100 <= p.c0 <= 255 && 0 <= p.c1 <= 100 && 0 <= p.c2 <= 100) ==> filtered_pixel(p)
            == black(),
{
}


/// Pixel (`x`, `y`) of a cut rectangle is the pixel of the picture at
/// column `lx + x` of row `ly + y`; the cut holds `w * h` pixels.
pub proof fn law_region_positions(img: Image, lx: int, ly: int, w: int, h: int)
    requires
        0 <= w,
        0 <= h,
    ensures
        region(img, lx, ly, w, h).len() == w * h,
        forall|x: int, y: int|
            0 <= x < w && 0 <= y < h ==> #[trigger] region(img, lx, ly, w, h)[y * w + x]
                == img.pixels@[(ly + y) * img.width + (lx + x)],
{
    assert(w * h >= 0) by (nonlinear_arith)
        requires
            0 <= w,
            0 <= h,
    ;
    assert forall|x: int, y: int| 0 <= x < w && 0 <= y < h implies #[trigger] region(
        img,
        lx,
        ly,
        w,
        h,
    )[y * w + x] == img.pixels@[(ly + y) * img.width + (lx + x)] by {
        lemma_position_in_buffer(x, y, w, h);
        lemma_index_of_position(x, y, w);
    }
}

/// Channels 0, 1 and 2 of a pixel are its fields `c0`, `c1` and `c2`.
pub proof fn law_channels(p: Pixel)
    ensures
        channel(p, 0) == p.c0,
        channel(p, 1) == p.c1,
        channel(p, 2) == p.c2,
{
}

/// A channel sum is zero over no pixels and grows by the channel of each
/// pixel added; the mean is the sum divided by the count, rounded down.
pub proof fn law_channel_sum_and_mean(s: Seq<Pixel>, p: Pixel, c: int)
    ensures
        channel_sum(Seq::<Pixel>::empty(), c) == 0,
        channel_sum(s.push(p), c) == channel_sum(s, c) + channel(p, c),
        s.len() > 0 ==> channel_mean(s, c) * s.len() <= channel_sum(s, c) < (channel_mean(s, c) + 1)
            * s.len(),
{
    assert(s.push(p).drop_last() =~= s);
    if s.len() > 0 {
        let n = s.len() as int;
        let t = channel_sum(s, c);
        assert((t / n) * n <= t < (t / n + 1) * n) by (nonlinear_arith)
            requires
                n > 0,
        ;
    }
}

/// Each channel of the difference of two pixels is the larger of the two
/// channel values minus the smaller; the difference of two pictures is
/// taken pixel by pixel.
pub proof fn law_difference(a: Pixel, b: Pixel, sa: Seq<Pixel>, sb: Seq<Pixel>)
    ensures
        a.c0 >= b.c0 ==> pixel_diff(a, b).c0 + b.c0 == a.c0,
        a.c0 < b.c0 ==> pixel_diff(a, b).c0 + a.c0 == b.c0,
        a.c1 >= b.c1 ==> pixel_diff(a, b).c1 + b.c1 == a.c1,
        a.c1 < b.c1 ==> pixel_diff(a, b).c1 + a.c1 == b.c1,
        a.c2 >= b.c2 ==> pixel_diff(a, b).c2 + b.c2 == a.c2,
        a.c2 < b.c2 ==> pixel_diff(a, b).c2 + a.c2 == b.c2,
        diff_pixels(sa, sb).len() == sa.len(),
        forall|i: int| 0 <= i < sa.len() ==> #[trigger] diff_pixels(sa, sb)[i] == pixel_diff(sa[i], sb[i]),
{
}

} // verus!
