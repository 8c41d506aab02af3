use vstd::prelude::*;

use super::constants::{BPP, BUFFER_SIZE, HEIGHT, WIDTH};
use vstd::arithmetic::div_mod::{lemma_fundamental_div_mod, lemma_mod_bound};

verus! {

/// The error type of `core::fmt`, which text writers answer with.
#[verifier::external_type_specification]
#[verifier::external_body]
pub struct ExFmtError(core::fmt::Error);

// ---------------------------------------------------------------------------
// The model: the framebuffer is a sequence of bytes, four per pixel, in rows
// of `WIDTH` pixels, each pixel stored as blue, green, red, alpha.
// ---------------------------------------------------------------------------

/// Column of the pixel that byte `i` of the framebuffer belongs to.
pub open spec fn byte_col(i: int) -> int {
    (i / BPP as int) % WIDTH as int
}

/// Row of the pixel that byte `i` of the framebuffer belongs to.
pub open spec fn byte_row(i: int) -> int {
    (i / BPP as int) / WIDTH as int
}

/// Which of the four bytes of its pixel byte `i` is (0 blue, 1 green, 2 red, 3 alpha).
pub open spec fn byte_channel(i: int) -> int {
    i % BPP as int
}

/// Offset of the first byte of pixel (x, y).
pub open spec fn pixel_offset(x: int, y: int) -> int {
    (y * WIDTH as int + x) * BPP as int
}

/// Byte `channel` of an opaque pixel of color `rgb` (given as red, green, blue).
pub open spec fn bgra_byte(rgb: [u8; 3], channel: int) -> u8 {
    if channel == 0 {
        rgb[2]
    } else if channel == 1 {
        rgb[1]
    } else if channel == 2 {
        rgb[0]
    } else {
        255u8
    }
}

/// `buf` with every pixel (x, y) for which `region(x, y)` holds painted in `rgb`;
/// every other byte is left as it was.
pub open spec fn paint(buf: Seq<u8>, region: spec_fn(int, int) -> bool, rgb: [u8; 3]) -> Seq<u8> {
    Seq::new(
        buf.len(),
        |i: int|
            if region(byte_col(i), byte_row(i)) {
                bgra_byte(rgb, byte_channel(i))
            } else {
                buf[i]
            },
    )
}

/// The single pixel (x, y).
pub open spec fn at(x: int, y: int) -> spec_fn(int, int) -> bool {
    |px: int, py: int| px == x && py == y
}

/// The pixels (px, py) with `x <= px < x + w` and `y <= py < y + h`.
pub open spec fn rect(x: int, y: int, w: int, h: int) -> spec_fn(int, int) -> bool {
    |px: int, py: int| x <= px < x + w && y <= py < y + h
}

/// Byte `k` (0 lowest) of `w` as it lies in memory, least significant byte first.
pub open spec fn le_byte(w: u32, k: int) -> u8 {
    if k == 0 {
        (w & 0xff) as u8
    } else if k == 1 {
        ((w >> 8u32) & 0xff) as u8
    } else if k == 2 {
        ((w >> 16u32) & 0xff) as u8
    } else {
        ((w >> 24u32) & 0xff) as u8
    }
}

/// A framebuffer whose every byte is zero: every pixel black and transparent.
pub open spec fn cleared() -> Seq<u8> {
    Seq::new(BUFFER_SIZE as nat, |i: int| 0u8)
}

/// Distance between `a` and `b`.
pub open spec fn abs_diff(a: int, b: int) -> int {
    if a > b {
        a - b
    } else {
        b - a
    }
}

/// Square of the euclidean distance between pixels (px, py) and (x, y).
pub open spec fn sq_dist(px: int, py: int, x: int, y: int) -> int {
    abs_diff(px, x) * abs_diff(px, x) + abs_diff(py, y) * abs_diff(py, y)
}

pub open spec fn max_int(a: int, b: int) -> int {
    if a >= b {
        a
    } else {
        b
    }
}

pub open spec fn min_int(a: int, b: int) -> int {
    if a <= b {
        a
    } else {
        b
    }
}

/// First coordinate of the span `c - reach ..= c + reach`, cut at the screen's edge 0.
pub open spec fn span_lo(c: int, reach: int) -> int {
    max_int(0, c - reach)
}

/// Last coordinate of the span `c - reach ..= c + reach`, cut to a screen side of `size`
/// pixels.
pub open spec fn span_hi(c: int, reach: int, size: int) -> int {
    min_int(c + reach, size - 1)
}

/// How far from `c` the cut span `c - reach ..= c + reach` reaches at most.
pub open spec fn span_extent(c: int, reach: int, size: int) -> int {
    max_int(c - span_lo(c, reach), span_hi(c, reach, size) - c)
}

/// Whether the square of pixels within `reach` of (x, y) in both directions meets the screen.
pub open spec fn box_meets_screen(x: int, y: int, reach: int) -> bool {
    x - reach < WIDTH && y - reach < HEIGHT
}

/// The largest `sq_dist` from (x, y) of a pixel of the screen in the square within `reach`.
pub open spec fn farthest_sq_dist(x: int, y: int, reach: int) -> int {
    span_extent(x, reach, WIDTH as int) * span_extent(x, reach, WIDTH as int) + span_extent(
        y,
        reach,
        HEIGHT as int,
    ) * span_extent(y, reach, HEIGHT as int)
}

/// The pixels within `reach` of (x, y) in both directions whose `sq_dist` from (x, y)
/// lies in `lo ..= hi`.
pub open spec fn band(x: int, y: int, reach: int, lo: int, hi: int) -> spec_fn(int, int) -> bool {
    |px: int, py: int|
        abs_diff(px, x) <= reach && abs_diff(py, y) <= reach && lo <= sq_dist(px, py, x, y) <= hi
}

/// The inside of a circle of radius `r` about (x, y): the pixels at most `r - 1` away.
/// A circle of radius 1 or less has no inside.
pub open spec fn circle_inside(x: int, y: int, r: int) -> spec_fn(int, int) -> bool {
    if r > 1 {
        band(x, y, r - 1, 0, (r - 1) * (r - 1))
    } else {
        |px: int, py: int| false
    }
}

/// The border of a circle of radius `r` about (x, y): the pixels whose distance from (x, y)
/// lies between `r - 1` and `r + 1`.
pub open spec fn circle_border(x: int, y: int, r: int) -> spec_fn(int, int) -> bool {
    band(x, y, r, (r - 1) * (r - 1), (r + 1) * (r + 1))
}

/// `draw_circle(x, y, r, ..)` runs without an arithmetic overflow: the last row of the
/// square about the center fits, its last column fits where one of its rows is on the
/// screen, and where the square meets the screen, the radius is at least 1 and the squared
/// distances that are computed fit.
pub open spec fn circle_fits(x: int, y: int, r: int) -> bool {
    &&& y + r <= usize::MAX
    &&& y - r < HEIGHT ==> x + r <= usize::MAX
    &&& box_meets_screen(x, y, r) ==> {
        &&& r >= 1
        &&& (r + 1) * (r + 1) <= usize::MAX
        &&& farthest_sq_dist(x, y, r) <= usize::MAX
    }
}

/// Whether (x, y) is a pixel of the screen.
pub open spec fn on_screen(x: int, y: int) -> bool {
    0 <= x < WIDTH && 0 <= y < HEIGHT
}

/// The bytes of pixel (x, y) are exactly the bytes `pixel_offset(x, y) ..
/// pixel_offset(x, y) + BPP`, in channel order.
pub proof fn lemma_pixel_bytes(x: int, y: int, i: int)
    requires
        0 <= x < WIDTH,
        0 <= y,
        0 <= i,
    ensures
        (byte_col(i) == x && byte_row(i) == y) <==> (pixel_offset(x, y) <= i < pixel_offset(x, y)
            + BPP),
        pixel_offset(x, y) <= i < pixel_offset(x, y) + BPP ==> byte_channel(i) == i - pixel_offset(
            x,
            y,
        ),
{
    lemma_fundamental_div_mod(i, 4);
    lemma_fundamental_div_mod(i / 4, 1024);
    lemma_mod_bound(i, 4);
    lemma_mod_bound(i / 4, 1024);
}

/// Every byte of the framebuffer lies in a pixel of the screen.
pub proof fn lemma_byte_on_screen(i: int)
    requires
        0 <= i < BUFFER_SIZE,
    ensures
        on_screen(byte_col(i), byte_row(i)),
{
    lemma_fundamental_div_mod(i, 4);
    lemma_fundamental_div_mod(i / 4, 1024);
    lemma_mod_bound(i, 4);
    lemma_mod_bound(i / 4, 1024);
}

/// The 32-bit word of an opaque pixel of color `rgb`: blue in the lowest byte,
/// then green, red and an alpha of 255.
fn bgra_word(rgb: &[u8; 3]) -> (w: u32)
    ensures
        forall|k: int| 0 <= k < 4 ==> #[trigger] le_byte(w, k) == bgra_byte(*rgb, k),
{
    let b: u8 = rgb[2];
    let g: u8 = rgb[1];
    let r: u8 = rgb[0];
    let w: u32 = ((b as u32) << 0u32) | ((g as u32) << 8u32) | ((r as u32) << 16u32) | (255u32
        << 24u32);
    assert((w & 0xff) as u8 == b && ((w >> 8u32) & 0xff) as u8 == g && ((w >> 16u32) & 0xff) as u8
        == r && ((w >> 24u32) & 0xff) as u8 == 255u8) by (bit_vector)
        requires
            w == ((b as u32) << 0u32) | ((g as u32) << 8u32) | ((r as u32) << 16u32) | (255u32
                << 24u32),
    ;
    w
}

/// A band whose square does not meet the screen holds no pixel of the screen.
proof fn lemma_band_off_screen(x: int, y: int, reach: int, lo: int, hi: int, buf: Seq<u8>, rgb: [u8; 3])
    requires
        !box_meets_screen(x, y, reach),
        buf.len() == BUFFER_SIZE,
    ensures
        paint(buf, band(x, y, reach, lo, hi), rgb) == buf,
{
    assert forall|i: int| 0 <= i < BUFFER_SIZE implies #[trigger] paint(
        buf,
        band(x, y, reach, lo, hi),
        rgb,
    )[i] == buf[i] by {
        lemma_byte_on_screen(i);
    }
    assert(paint(buf, band(x, y, reach, lo, hi), rgb) =~= buf);
}

/// Shrinking the square about (x, y) brings no pixel farther away.
proof fn lemma_farthest_monotone(x: int, y: int, small: int, large: int)
    requires
        0 <= small <= large,
        0 <= x,
        0 <= y,
    ensures
        farthest_sq_dist(x, y, small) <= farthest_sq_dist(x, y, large),
{
    let a: int = span_extent(x, small, WIDTH as int);
    let b: int = span_extent(x, large, WIDTH as int);
    let c: int = span_extent(y, small, HEIGHT as int);
    let d: int = span_extent(y, large, HEIGHT as int);
    assert(0 <= a <= b);
    assert(0 <= c <= d);
    assert(a * a <= b * b) by (nonlinear_arith)
        requires
            0 <= a <= b,
    ;
    assert(c * c <= d * d) by (nonlinear_arith)
        requires
            0 <= c <= d,
    ;
}

/// `set_pixel` and `fill` store a color in the same way: setting pixel (x, y) is filling
/// the 1 x 1 rectangle at (x, y).
pub proof fn lemma_set_pixel_is_unit_fill(buf: Seq<u8>, x: int, y: int, rgb: [u8; 3])
    ensures
        paint(buf, at(x, y), rgb) == paint(buf, rect(x, y, 1, 1), rgb),
{
    assert(paint(buf, at(x, y), rgb) =~= paint(buf, rect(x, y, 1, 1), rgb));
}

/// Painting a region twice leaves it in the second color: the last drawing wins, and
/// drawing the same thing twice is drawing it once.
pub proof fn lemma_paint_overrides(
    buf: Seq<u8>,
    region: spec_fn(int, int) -> bool,
    first: [u8; 3],
    second: [u8; 3],
)
    ensures
        paint(paint(buf, region, first), region, second) == paint(buf, region, second),
{
    assert(paint(paint(buf, region, first), region, second) =~= paint(buf, region, second));
}

/// Drawings on disjoint regions do not interfere: their order does not matter.
pub proof fn lemma_paint_disjoint_commute(
    buf: Seq<u8>,
    r1: spec_fn(int, int) -> bool,
    c1: [u8; 3],
    r2: spec_fn(int, int) -> bool,
    c2: [u8; 3],
)
    requires
        forall|x: int, y: int| !(#[trigger] r1(x, y) && #[trigger] r2(x, y)),
    ensures
        paint(paint(buf, r1, c1), r2, c2) == paint(paint(buf, r2, c2), r1, c1),
{
    assert(paint(paint(buf, r1, c1), r2, c2) =~= paint(paint(buf, r2, c2), r1, c1));
}

/// After painting, every pixel of the region holds the four bytes of the color, blue,
/// green, red and an opaque alpha, at `pixel_offset`; every pixel outside it is unchanged.
pub proof fn lemma_paint_pixel(
    buf: Seq<u8>,
    region: spec_fn(int, int) -> bool,
    rgb: [u8; 3],
    x: int,
    y: int,
    k: int,
)
    requires
        buf.len() == BUFFER_SIZE,
        on_screen(x, y),
        0 <= k < BPP,
    ensures
        paint(buf, region, rgb)[pixel_offset(x, y) + k] == if region(x, y) {
            bgra_byte(rgb, k)
        } else {
            buf[pixel_offset(x, y) + k]
        },
{
    lemma_pixel_bytes(x, y, pixel_offset(x, y) + k);
}

/// `buf` after painting the single pixels of `pts` in `rgb`, one after the other, first to
/// last: what setting each of them with `set_pixel` in that order does.
pub open spec fn paint_each(buf: Seq<u8>, pts: Seq<(int, int)>, rgb: [u8; 3]) -> Seq<u8>
    decreases pts.len(),
{
    if pts.len() == 0 {
        buf
    } else {
        paint_each(paint(buf, at(pts[0].0, pts[0].1), rgb), pts.drop_first(), rgb)
    }
}

/// Painting the pixels of `pts` one by one is painting the region of the pixels that `pts`
/// holds.
proof fn lemma_paint_each_is_paint(buf: Seq<u8>, pts: Seq<(int, int)>, rgb: [u8; 3])
    ensures
        paint_each(buf, pts, rgb) == paint(buf, |px: int, py: int| pts.contains((px, py)), rgb),
    decreases pts.len(),
{
    let whole = |px: int, py: int| pts.contains((px, py));
    if pts.len() == 0 {
        assert(paint(buf, whole, rgb) =~= buf);
    } else {
        let rest = pts.drop_first();
        let first = paint(buf, at(pts[0].0, pts[0].1), rgb);
        lemma_paint_each_is_paint(first, rest, rgb);
        assert forall|px: int, py: int| #[trigger] whole(px, py) == ((px == pts[0].0 && py
            == pts[0].1) || rest.contains((px, py))) by {
            if pts.contains((px, py)) && !(px == pts[0].0 && py == pts[0].1) {
                let k = choose|k: int| 0 <= k < pts.len() && pts[k] == (px, py);
                assert(rest[k - 1] == (px, py));
            }
            if rest.contains((px, py)) {
                let k = choose|k: int| 0 <= k < rest.len() && rest[k] == (px, py);
                assert(pts[k + 1] == (px, py));
            }
            if px == pts[0].0 && py == pts[0].1 {
                assert(pts[0] == (px, py));
            }
        }
        assert(paint(first, |px: int, py: int| rest.contains((px, py)), rgb) =~= paint(
            buf,
            whole,
            rgb,
        ));
    }
}

/// Filling a rectangle is setting each of its pixels, in any order: for every sequence
/// `pts` that holds exactly the pixels of the rectangle (each as often as one likes),
/// setting them one by one gives what `fill` gives.
pub proof fn lemma_fill_is_each_pixel(
    buf: Seq<u8>,
    x: int,
    y: int,
    w: int,
    h: int,
    pts: Seq<(int, int)>,
    rgb: [u8; 3],
)
    requires
        forall|px: int, py: int| #[trigger] pts.contains((px, py)) <==> rect(x, y, w, h)(px, py),
    ensures
        paint_each(buf, pts, rgb) == paint(buf, rect(x, y, w, h), rgb),
{
    lemma_paint_each_is_paint(buf, pts, rgb);
    assert(paint(buf, |px: int, py: int| pts.contains((px, py)), rgb) =~= paint(
        buf,
        rect(x, y, w, h),
        rgb,
    ));
}

/// Byte `k` of pixel (px, py) of `buf`.
pub open spec fn pixel_byte(buf: Seq<u8>, px: int, py: int, k: int) -> u8 {
    buf[pixel_offset(px, py) + k]
}

/// What a circle of radius `r` about (x, y), inside `fill` and border `border`, leaves at
/// byte `k` of pixel (px, py) of `buf`, by the pixel's squared distance `d` from the center:
/// - the border color where `(r - 1)^2 <= d <= (r + 1)^2` and the pixel lies within `r` of
///   the center in both directions;
/// - else, for a radius above 1, the fill color where `d < (r - 1)^2`: the whole disc of
///   radius `r - 1` short of its edge, which the border covers;
/// - else what `buf` held.
pub proof fn lemma_circle_pixel(
    buf: Seq<u8>,
    x: int,
    y: int,
    r: int,
    fill: [u8; 3],
    border: [u8; 3],
    px: int,
    py: int,
    k: int,
)
    requires
        buf.len() == BUFFER_SIZE,
        on_screen(px, py),
        0 <= k < BPP,
    ensures
        pixel_byte(paint(paint(buf, circle_inside(x, y, r), fill), circle_border(x, y, r), border), px, py, k)
            == if abs_diff(px, x) <= r && abs_diff(py, y) <= r && (r - 1) * (r - 1) <= sq_dist(
            px,
            py,
            x,
            y,
        ) <= (r + 1) * (r + 1) {
            bgra_byte(border, k)
        } else if r > 1 && sq_dist(px, py, x, y) < (r - 1) * (r - 1) {
            bgra_byte(fill, k)
        } else {
            pixel_byte(buf, px, py, k)
        },
{
    let inside = paint(buf, circle_inside(x, y, r), fill);
    lemma_paint_pixel(buf, circle_inside(x, y, r), fill, px, py, k);
    lemma_paint_pixel(inside, circle_border(x, y, r), border, px, py, k);
    let a = abs_diff(px, x);
    let b = abs_diff(py, y);
    let d = sq_dist(px, py, x, y);
    assert(0 <= a && 0 <= b);
    assert(0 <= a * a && 0 <= b * b) by (nonlinear_arith)
        requires
            0 <= a,
            0 <= b,
    ;
    if r > 1 && d < (r - 1) * (r - 1) {
        assert(a <= r - 1 && b <= r - 1) by (nonlinear_arith)
            requires
                0 <= a,
                0 <= b,
                r > 1,
                a * a + b * b < (r - 1) * (r - 1),
        ;
    }
    if r > 1 && a <= r - 1 && b <= r - 1 && d <= (r - 1) * (r - 1) {
        assert((r - 1) * (r - 1) <= (r + 1) * (r + 1)) by (nonlinear_arith)
            requires
                r > 1,
        ;
    }
}

/// A writer that draws on a `WIDTH` x `HEIGHT` framebuffer of `BPP` bytes per pixel.
pub struct FrameBufferWriter {
    buffer: Vec<u8>,
}

impl View for FrameBufferWriter {
    type V = Seq<u8>;

    closed spec fn view(&self) -> Seq<u8> {
        self.buffer@
    }
}

impl FrameBufferWriter {
    /// The writer covers the whole framebuffer.
    pub closed spec fn wf(&self) -> bool {
        self.buffer@.len() == BUFFER_SIZE
    }

    /// A well-formed writer holds exactly `BUFFER_SIZE` bytes.
    pub proof fn lemma_wf_len(&self)
        requires
            self.wf(),
        ensures
            self@.len() == BUFFER_SIZE,
    {
    }

    /// Writes one opaque pixel of color `rgb` at byte offset `offset`.
    fn put_bgra(&mut self, offset: usize, rgb: &[u8; 3])
        requires
            offset + BPP <= old(self).buffer.len(),
        ensures
            final(self).buffer@ == old(self).buffer@.update(offset as int, rgb[2]).update(
                offset + 1,
                rgb[1],
            ).update(offset + 2, rgb[0]).update(offset + 3, 255u8),
    {
        self.buffer.set(offset, rgb[2]);
        self.buffer.set(offset + 1, rgb[1]);
        self.buffer.set(offset + 2, rgb[0]);
        self.buffer.set(offset + 3, 255);
    }

    /// A writer over the framebuffer whose bytes are `screen`, as the screen shows them: it
    /// writes no pixel. There is a writer only for a `screen` of exactly `BUFFER_SIZE` bytes.
    pub fn new(screen: Vec<u8>) -> (fb: Option<Self>)
        ensures
            fb is Some <==> screen@.len() == BUFFER_SIZE,
            fb matches Some(w) ==> w.wf() && w@ == screen@,
    {
        if screen.len() == BUFFER_SIZE {
            Some(FrameBufferWriter { buffer: screen })
        } else {
            None
        }
    }

    /// The bytes of the framebuffer, `BPP` per pixel, row after row.
    pub fn bytes(&self) -> (b: &[u8])
        ensures
            b@ == self@,
    {
        self.buffer.as_slice()
    }

    /// Stores `word` at byte offset `offset`, least significant byte first.
    fn store_word(&mut self, offset: usize, word: u32)
        requires
            offset + BPP <= old(self).buffer.len(),
        ensures
            final(self).buffer@ == old(self).buffer@.update(offset as int, le_byte(word, 0)).update(
                offset + 1,
                le_byte(word, 1),
            ).update(offset + 2, le_byte(word, 2)).update(offset + 3, le_byte(word, 3)),
    {
        self.buffer.set(offset, (word & 0xff) as u8);
        self.buffer.set(offset + 1, ((word >> 8u32) & 0xff) as u8);
        self.buffer.set(offset + 2, ((word >> 16u32) & 0xff) as u8);
        self.buffer.set(offset + 3, ((word >> 24u32) & 0xff) as u8);
    }

    /// Stores `word` at pixel (x, y), least significant byte first.
    fn store_pixel(&mut self, x: usize, y: usize, word: u32)
        requires
            old(self).wf(),
            x < WIDTH,
            y < HEIGHT,
        ensures
            final(self).wf(),
            forall|i: int|
                0 <= i < BUFFER_SIZE ==> #[trigger] final(self)@[i] == if byte_col(i) == x
                    && byte_row(i) == y {
                    le_byte(word, byte_channel(i))
                } else {
                    old(self)@[i]
                },
    {
        let offset: usize = (y * WIDTH + x) * BPP;
        self.store_word(offset, word);
        proof {
            assert forall|i: int| 0 <= i < BUFFER_SIZE implies #[trigger] self@[i] == if byte_col(i)
                == x && byte_row(i) == y {
                le_byte(word, byte_channel(i))
            } else {
                old(self)@[i]
            } by {
                lemma_pixel_bytes(x as int, y as int, i);
            }
        }
    }

    /// Fills the rectangle of `width` x `height` pixels whose top left corner is
    /// (x, y) with the opaque color `rgb`; the part of it off the screen is ignored.
    pub fn fill(&mut self, x: usize, y: usize, width: usize, height: usize, rgb: &[u8; 3])
        requires
            old(self).wf(),
            y + height <= usize::MAX,
        ensures
            final(self).wf(),
            final(self)@ == paint(old(self)@, rect(x as int, y as int, width as int, height as int), *rgb),
            forall|px: int, py: int, k: int|
                on_screen(px, py) && 0 <= k < BPP ==> #[trigger] pixel_byte(final(self)@, px, py, k)
                    == if x <= px < x + width && y <= py < y + height {
                    if k == 0 {
                        rgb[2]
                    } else if k == 1 {
                        rgb[1]
                    } else if k == 2 {
                        rgb[0]
                    } else {
                        255u8
                    }
                } else {
                    pixel_byte(old(self)@, px, py, k)
                },
    {
        let color: u32 = bgra_word(rgb);
        let ghost old_buf = self@;
        let end: usize = y + height;
        let mut cy: usize = y;
        while cy < end
            invariant_except_break
                y <= cy <= end,
            invariant
                self.wf(),
                old_buf.len() == BUFFER_SIZE,
                end == y + height,
                forall|k: int| 0 <= k < 4 ==> #[trigger] le_byte(color, k) == bgra_byte(*rgb, k),
                forall|i: int|
                    0 <= i < BUFFER_SIZE ==> #[trigger] self@[i] == if x <= byte_col(i) < x + width
                        && y <= byte_row(i) < cy {
                        bgra_byte(*rgb, byte_channel(i))
                    } else {
                        old_buf[i]
                    },
            ensures
                forall|i: int|
                    0 <= i < BUFFER_SIZE ==> #[trigger] self@[i] == if x <= byte_col(i) < x + width
                        && y <= byte_row(i) < end {
                        bgra_byte(*rgb, byte_channel(i))
                    } else {
                        old_buf[i]
                    },
            decreases end - cy,
        {
            if cy >= HEIGHT {
                proof {
                    assert forall|i: int| 0 <= i < BUFFER_SIZE implies #[trigger] self@[i] == if x
                        <= byte_col(i) < x + width && y <= byte_row(i) < end {
                        bgra_byte(*rgb, byte_channel(i))
                    } else {
                        old_buf[i]
                    } by {
                        lemma_byte_on_screen(i);
                    }
                }
                break;
            }
            let mut cx: usize = 0;
            while cx < width
                invariant_except_break
                    cx <= width,
                    cx > 0 ==> x + cx <= WIDTH,
                invariant
                    old_buf.len() == BUFFER_SIZE,
                    self.wf(),
                    y <= cy < end,
                    cy < HEIGHT,
                    forall|k: int| 0 <= k < 4 ==> #[trigger] le_byte(color, k) == bgra_byte(*rgb, k),
                    forall|i: int|
                        0 <= i < BUFFER_SIZE ==> #[trigger] self@[i] == if (x <= byte_col(i) < x
                            + width && y <= byte_row(i) < cy) || (byte_row(i) == cy && x
                            <= byte_col(i) < x + cx) {
                            bgra_byte(*rgb, byte_channel(i))
                        } else {
                            old_buf[i]
                        },
                ensures
                    forall|i: int|
                        0 <= i < BUFFER_SIZE ==> #[trigger] self@[i] == if x <= byte_col(i) < x
                            + width && y <= byte_row(i) < cy + 1 {
                            bgra_byte(*rgb, byte_channel(i))
                        } else {
                            old_buf[i]
                        },
                decreases width - cx,
            {
                if x + cx >= WIDTH {
                    proof {
                        assert forall|i: int| 0 <= i < BUFFER_SIZE implies #[trigger] self@[i]
                            == if x <= byte_col(i) < x + width && y <= byte_row(i) < cy + 1 {
                            bgra_byte(*rgb, byte_channel(i))
                        } else {
                            old_buf[i]
                        } by {
                            lemma_byte_on_screen(i);
                        }
                    }
                    break;
                }
                self.store_pixel(x + cx, cy, color);
                cx += 1;
            }
            cy += 1;
        }
        assert(self@ =~= paint(old_buf, rect(x as int, y as int, width as int, height as int), *rgb));
        assert forall|px: int, py: int, k: int| on_screen(px, py) && 0 <= k < BPP implies #[trigger] pixel_byte(
            self@,
            px,
            py,
            k,
        ) == if x <= px < x + width && y <= py < y + height {
            bgra_byte(*rgb, k)
        } else {
            pixel_byte(old_buf, px, py, k)
        } by {
            lemma_paint_pixel(old_buf, rect(x as int, y as int, width as int, height as int), *rgb, px, py, k);
        }
    }

    /// Sets every byte of the framebuffer to zero.
    pub fn clear_screen(&mut self)
        requires
            old(self).wf(),
        ensures
            final(self).wf(),
            final(self)@ == cleared(),
    {
        assert(le_byte(0, 0) == 0 && le_byte(0, 1) == 0 && le_byte(0, 2) == 0 && le_byte(0, 3) == 0)
            by (bit_vector);
        let ghost old_buf = self@;
        let mut i: usize = 0;
        while i < BUFFER_SIZE
            invariant
                self.wf(),
                old_buf.len() == BUFFER_SIZE,
                i <= BUFFER_SIZE,
                i % 4 == 0,
                le_byte(0, 0) == 0 && le_byte(0, 1) == 0 && le_byte(0, 2) == 0 && le_byte(0, 3) == 0,
                forall|j: int| 0 <= j < BUFFER_SIZE ==> #[trigger] self@[j] == if j < i {
                    0u8
                } else {
                    old_buf[j]
                },
            decreases BUFFER_SIZE - i,
        {
            let ghost prev = self@;
            self.store_word(i, 0);
            assert forall|j: int| 0 <= j < BUFFER_SIZE implies #[trigger] self@[j] == if j < i
                + BPP {
                0u8
            } else {
                old_buf[j]
            } by {
                if i <= j < i + BPP {
                    assert(self@[j] == 0);
                } else {
                    assert(self@[j] == prev[j]);
                }
            }
            i += BPP;
        }
        assert(self@ =~= cleared());
    }

    /// Same as `fill`.
    pub fn draw_rect(&mut self, x: usize, y: usize, width: usize, height: usize, rgb: &[u8; 3])
        requires
            old(self).wf(),
            y + height <= usize::MAX,
        ensures
            final(self).wf(),
            final(self)@ == paint(old(self)@, rect(x as int, y as int, width as int, height as int), *rgb),
            forall|px: int, py: int, k: int|
                on_screen(px, py) && 0 <= k < BPP ==> #[trigger] pixel_byte(final(self)@, px, py, k)
                    == if x <= px < x + width && y <= py < y + height {
                    if k == 0 {
                        rgb[2]
                    } else if k == 1 {
                        rgb[1]
                    } else if k == 2 {
                        rgb[0]
                    } else {
                        255u8
                    }
                } else {
                    pixel_byte(old(self)@, px, py, k)
                },
    {
        self.fill(x, y, width, height, rgb);
    }

    /// Paints in `rgb` every pixel of the screen within `reach` of (x, y) in both
    /// directions whose squared distance from (x, y) lies in `lo ..= hi`, row by row.
    fn paint_band(&mut self, x: usize, y: usize, reach: usize, lo: usize, hi: usize, rgb: &[u8; 3])
        requires
            old(self).wf(),
            x + reach <= usize::MAX,
            y + reach <= usize::MAX,
            box_meets_screen(x as int, y as int, reach as int),
            farthest_sq_dist(x as int, y as int, reach as int) <= usize::MAX,
        ensures
            final(self).wf(),
            final(self)@ == paint(
                old(self)@,
                band(x as int, y as int, reach as int, lo as int, hi as int),
                *rgb,
            ),
    {
        let ghost old_buf = self@;
        let ghost ex = span_extent(x as int, reach as int, WIDTH as int);
        let ghost ey = span_extent(y as int, reach as int, HEIGHT as int);
        let lo_x: usize = x.saturating_sub(reach);
        let hi_x: usize = if x + reach < WIDTH - 1 {
            x + reach
        } else {
            WIDTH - 1
        };
        let lo_y: usize = y.saturating_sub(reach);
        let hi_y: usize = if y + reach < HEIGHT - 1 {
            y + reach
        } else {
            HEIGHT - 1
        };
        let mut cy: usize = lo_y;
        while cy <= hi_y
            invariant
                self.wf(),
                old_buf.len() == BUFFER_SIZE,
                lo_x == span_lo(x as int, reach as int),
                hi_x == span_hi(x as int, reach as int, WIDTH as int),
                lo_y == span_lo(y as int, reach as int),
                hi_y == span_hi(y as int, reach as int, HEIGHT as int),
                lo_y <= cy <= hi_y + 1,
                lo_x <= hi_x,
                ex == span_extent(x as int, reach as int, WIDTH as int),
                ey == span_extent(y as int, reach as int, HEIGHT as int),
                ex * ex + ey * ey <= usize::MAX,
                forall|i: int|
                    0 <= i < BUFFER_SIZE ==> #[trigger] self@[i] == if lo_x <= byte_col(i) <= hi_x
                        && lo_y <= byte_row(i) < cy && lo <= sq_dist(
                        byte_col(i),
                        byte_row(i),
                        x as int,
                        y as int,
                    ) <= hi {
                        bgra_byte(*rgb, byte_channel(i))
                    } else {
                        old_buf[i]
                    },
            decreases hi_y + 1 - cy,
        {
            let mut cx: usize = lo_x;
            while cx <= hi_x
                invariant
                    self.wf(),
                    old_buf.len() == BUFFER_SIZE,
                    lo_x == span_lo(x as int, reach as int),
                    hi_x == span_hi(x as int, reach as int, WIDTH as int),
                    lo_y == span_lo(y as int, reach as int),
                    hi_y == span_hi(y as int, reach as int, HEIGHT as int),
                    lo_y <= cy <= hi_y,
                    lo_x <= hi_x,
                    lo_x <= cx <= hi_x + 1,
                    ex == span_extent(x as int, reach as int, WIDTH as int),
                    ey == span_extent(y as int, reach as int, HEIGHT as int),
                    ex * ex + ey * ey <= usize::MAX,
                    forall|i: int|
                        0 <= i < BUFFER_SIZE ==> #[trigger] self@[i] == if ((lo_x <= byte_col(i)
                            <= hi_x && lo_y <= byte_row(i) < cy) || (byte_row(i) == cy && lo_x
                            <= byte_col(i) < cx)) && lo <= sq_dist(
                            byte_col(i),
                            byte_row(i),
                            x as int,
                            y as int,
                        ) <= hi {
                            bgra_byte(*rgb, byte_channel(i))
                        } else {
                            old_buf[i]
                        },
                decreases hi_x + 1 - cx,
            {
                let dx: usize = if cx > x {
                    cx - x
                } else {
                    x - cx
                };
                let dy: usize = if cy > y {
                    cy - y
                } else {
                    y - cy
                };
                proof {
                    assert(dx <= ex);
                    assert(dy <= ey);
                    assert(dx * dx <= ex * ex) by (nonlinear_arith)
                        requires
                            0 <= dx <= ex,
                    ;
                    assert(dy * dy <= ey * ey) by (nonlinear_arith)
                        requires
                            0 <= dy <= ey,
                    ;
                }
                let distance_squared: usize = dx * dx + dy * dy;
                let ghost prev = self@;
                if distance_squared >= lo && distance_squared <= hi {
                    self.set_pixel(cx, cy, rgb);
                    proof {
                        assert forall|i: int| 0 <= i < BUFFER_SIZE implies #[trigger] self@[i] == if (
                        (lo_x <= byte_col(i) <= hi_x && lo_y <= byte_row(i) < cy) || (byte_row(i)
                            == cy && lo_x <= byte_col(i) < cx + 1)) && lo <= sq_dist(
                            byte_col(i),
                            byte_row(i),
                            x as int,
                            y as int,
                        ) <= hi {
                            bgra_byte(*rgb, byte_channel(i))
                        } else {
                            old_buf[i]
                        } by {
                            assert(self@[i] == paint(prev, at(cx as int, cy as int), *rgb)[i]);
                        }
                    }
                } else {
                    proof {
                        assert forall|i: int| 0 <= i < BUFFER_SIZE implies #[trigger] self@[i] == if (
                        (lo_x <= byte_col(i) <= hi_x && lo_y <= byte_row(i) < cy) || (byte_row(i)
                            == cy && lo_x <= byte_col(i) < cx + 1)) && lo <= sq_dist(
                            byte_col(i),
                            byte_row(i),
                            x as int,
                            y as int,
                        ) <= hi {
                            bgra_byte(*rgb, byte_channel(i))
                        } else {
                            old_buf[i]
                        } by {
                            assert(prev[i] == self@[i]);
                        }
                    }
                }
                cx += 1;
            }
            cy += 1;
        }
        proof {
            assert forall|i: int| 0 <= i < BUFFER_SIZE implies #[trigger] self@[i] == paint(
                old_buf,
                band(x as int, y as int, reach as int, lo as int, hi as int),
                *rgb,
            )[i] by {
                lemma_byte_on_screen(i);
            }
            assert(self@ =~= paint(
                old_buf,
                band(x as int, y as int, reach as int, lo as int, hi as int),
                *rgb,
            ));
        }
    }

    /// Draws a circle of radius `radius` about (x, y): its inside, the pixels at most
    /// `radius - 1` away, in `fill_rgb`, then its border, the pixels between `radius - 1` and
    /// `radius + 1` away, in `border_rgb`. The part off the screen is ignored.
    pub fn draw_circle(
        &mut self,
        x: usize,
        y: usize,
        radius: usize,
        fill_rgb: &[u8; 3],
        border_rgb: &[u8; 3],
    )
        requires
            old(self).wf(),
            circle_fits(x as int, y as int, radius as int),
        ensures
            final(self).wf(),
            final(self)@ == paint(
                paint(old(self)@, circle_inside(x as int, y as int, radius as int), *fill_rgb),
                circle_border(x as int, y as int, radius as int),
                *border_rgb,
            ),
            forall|px: int, py: int, k: int|
                on_screen(px, py) && 0 <= k < BPP ==> #[trigger] pixel_byte(final(self)@, px, py, k)
                    == if abs_diff(px, x as int) <= radius && abs_diff(py, y as int) <= radius && (
                    radius - 1) * (radius - 1) <= sq_dist(px, py, x as int, y as int) <= (radius + 1)
                    * (radius + 1) {
                    bgra_byte(*border_rgb, k)
                } else if radius > 1 && sq_dist(px, py, x as int, y as int) < (radius - 1) * (
                radius - 1) {
                    bgra_byte(*fill_rgb, k)
                } else {
                    pixel_byte(old(self)@, px, py, k)
                },
    {
        let ghost old_buf = self@;
        // First the inside, a circle one pixel smaller.
        if radius > 1 {
            let fill_radius: usize = radius - 1;
            if x.saturating_sub(fill_radius) < WIDTH && y.saturating_sub(fill_radius) < HEIGHT {
                proof {
                    lemma_farthest_monotone(x as int, y as int, fill_radius as int, radius as int);
                    assert(fill_radius * fill_radius <= (radius + 1) * (radius + 1))
                        by (nonlinear_arith)
                        requires
                            fill_radius < radius + 1,
                    ;
                }
                let limit: usize = fill_radius * fill_radius;
                self.paint_band(x, y, fill_radius, 0, limit, fill_rgb);
            } else {
                proof {
                    lemma_band_off_screen(
                        x as int,
                        y as int,
                        fill_radius as int,
                        0,
                        fill_radius * fill_radius,
                        old_buf,
                        *fill_rgb,
                    );
                }
            }
        } else {
            assert(paint(old_buf, circle_inside(x as int, y as int, radius as int), *fill_rgb)
                =~= old_buf);
        }
        let ghost inside = self@;
        // Then the border, the pixels close to the exact radius.
        if x.saturating_sub(radius) < WIDTH && y.saturating_sub(radius) < HEIGHT {
            proof {
                assert(box_meets_screen(x as int, y as int, radius as int));
                assert(radius + 1 <= (radius + 1) * (radius + 1)) by (nonlinear_arith)
                    requires
                        radius >= 1,
                ;
                assert((radius - 1) * (radius - 1) <= (radius + 1) * (radius + 1))
                    by (nonlinear_arith)
                    requires
                        radius >= 1,
                ;
            }
            let inner_limit: usize = match (radius - 1).checked_mul(radius - 1) {
                Some(v) => v,
                None => usize::MAX,
            };
            let outer_limit: usize = (radius + 1) * (radius + 1);
            self.paint_band(x, y, radius, inner_limit, outer_limit, border_rgb);
        } else {
            proof {
                lemma_band_off_screen(
                    x as int,
                    y as int,
                    radius as int,
                    (radius - 1) * (radius - 1),
                    (radius + 1) * (radius + 1),
                    inside,
                    *border_rgb,
                );
            }
        }
        proof {
            assert forall|px: int, py: int, k: int| on_screen(px, py) && 0 <= k < BPP implies #[trigger] pixel_byte(
                self@,
                px,
                py,
                k,
            ) == if abs_diff(px, x as int) <= radius && abs_diff(py, y as int) <= radius && (radius
                - 1) * (radius - 1) <= sq_dist(px, py, x as int, y as int) <= (radius + 1) * (radius
                + 1) {
                bgra_byte(*border_rgb, k)
            } else if radius > 1 && sq_dist(px, py, x as int, y as int) < (radius - 1) * (radius
                - 1) {
                bgra_byte(*fill_rgb, k)
            } else {
                pixel_byte(old_buf, px, py, k)
            } by {
                lemma_circle_pixel(
                    old_buf,
                    x as int,
                    y as int,
                    radius as int,
                    *fill_rgb,
                    *border_rgb,
                    px,
                    py,
                    k,
                );
            }
        }
    }

    /// Sets pixel (x, y) to the opaque color `rgb`; a pixel off the screen is ignored.
    pub fn set_pixel(&mut self, x: usize, y: usize, rgb: &[u8; 3])
        requires
            old(self).wf(),
        ensures
            final(self).wf(),
            final(self)@ == paint(old(self)@, at(x as int, y as int), *rgb),
            forall|px: int, py: int, k: int|
                on_screen(px, py) && 0 <= k < BPP ==> #[trigger] pixel_byte(final(self)@, px, py, k)
                    == if px == x && py == y {
                    if k == 0 {
                        rgb[2]
                    } else if k == 1 {
                        rgb[1]
                    } else if k == 2 {
                        rgb[0]
                    } else {
                        255u8
                    }
                } else {
                    pixel_byte(old(self)@, px, py, k)
                },
            !on_screen(x as int, y as int) ==> final(self)@ == old(self)@,
    {
        if x >= self.width() || y >= self.height() {
            proof {
                assert forall|i: int| 0 <= i < old(self)@.len() implies !at(x as int, y as int)(
                    byte_col(i),
                    byte_row(i),
                ) by {
                    lemma_byte_on_screen(i);
                }
                assert(paint(old(self)@, at(x as int, y as int), *rgb) =~= old(self)@);
            }
            return;
        }
        let offset: usize = (y * self.width() + x) * BPP;
        if offset + BPP > self.buffer.len() {
            return;
        }
        self.put_bgra(offset, rgb);
        proof {
            assert forall|i: int| 0 <= i < old(self)@.len() implies #[trigger] self@[i] == paint(
                old(self)@,
                at(x as int, y as int),
                *rgb,
            )[i] by {
                lemma_pixel_bytes(x as int, y as int, i);
            }
            assert(self@ =~= paint(old(self)@, at(x as int, y as int), *rgb));
        }
        proof {
            assert forall|px: int, py: int, k: int| on_screen(px, py) && 0 <= k < BPP implies #[trigger] pixel_byte(
                self@,
                px,
                py,
                k,
            ) == if px == x && py == y {
                bgra_byte(*rgb, k)
            } else {
                pixel_byte(old(self)@, px, py, k)
            } by {
                lemma_paint_pixel(old(self)@, at(x as int, y as int), *rgb, px, py, k);
            }
        }
    }

    /// Width of the screen in pixels.
    pub fn width(&self) -> (w: usize)
        ensures
            w == WIDTH,
    {
        WIDTH
    }

    /// Height of the screen in pixels.
    pub fn height(&self) -> (h: usize)
        ensures
            h == HEIGHT,
    {
        HEIGHT
    }
}

/// Text written to the framebuffer goes nowhere: the writer draws no text, and writing
/// always succeeds.
impl core::fmt::Write for FrameBufferWriter {
    fn write_str(&mut self, _s: &str) -> (r: core::fmt::Result)
        ensures
            r is Ok,
            final(self)@ == old(self)@,
    {
        Ok(())
    }
}

} // verus!
