//! What the kernel does with the framebuffer at boot: the pages it maps for it and the
//! test pattern it draws.

use vstd::prelude::*;

use crate::framebuffer::constants::{
    BLACK, BLUE, BUFFER_SIZE, FB_ADDR, GREEN, HEIGHT, PAGE_SIZE, RED, WIDTH,
};
use crate::framebuffer::writer::{
    abs_diff, bgra_byte, circle_border, circle_fits, farthest_sq_dist, span_extent, circle_inside,
    cleared, lemma_circle_pixel, lemma_paint_pixel, on_screen, paint, pixel_byte, rect, sq_dist,
    FrameBufferWriter,
};
use crate::framebuffer::constants::BPP;

verus! {

/// Number of pages that the framebuffer spans.
pub open spec fn framebuffer_page_count() -> nat {
    ((BUFFER_SIZE + PAGE_SIZE - 1) / PAGE_SIZE as int) as nat
}

/// The physical addresses of the pages that hold the framebuffer, lowest first: one for
/// every `PAGE_SIZE` bytes of it, starting at `FB_ADDR`.
pub fn framebuffer_page_addrs() -> (pages: Vec<u64>)
    ensures
        pages.len() == framebuffer_page_count(),
        forall|k: int|
            0 <= k < pages.len() ==> #[trigger] pages[k] == FB_ADDR + k * PAGE_SIZE,
{
    let mut pages: Vec<u64> = Vec::new();
    let mut page_addr: usize = 0;
    while page_addr < BUFFER_SIZE
        invariant
            page_addr <= BUFFER_SIZE,
            page_addr % 4096 == 0,
            pages.len() == page_addr / 4096,
            forall|k: int|
                0 <= k < pages.len() ==> #[trigger] pages[k] == FB_ADDR + k * PAGE_SIZE,
        decreases BUFFER_SIZE - page_addr,
    {
        pages.push(FB_ADDR + page_addr as u64);
        page_addr += 4096;
    }
    pages
}

/// The screen after `draw_test_pattern`: red, green and blue vertical bars a third of the
/// width each, a black 600 x 400 rectangle in the middle, and above the middle a circle of
/// radius 50 filled in blue with a red border.
pub open spec fn test_pattern() -> Seq<u8> {
    let bar: int = WIDTH as int / 3;
    let h: int = HEIGHT as int;
    let bars = paint(
        paint(paint(cleared(), rect(0, 0, bar, h), RED), rect(bar, 0, bar, h), GREEN),
        rect(2 * bar, 0, bar, h),
        BLUE,
    );
    let framed = paint(bars, rect((WIDTH as int - 600) / 2, (h - 400) / 2, 600, 400), BLACK);
    let cx: int = WIDTH as int / 2;
    let cy: int = h / 2 - 150;
    paint(paint(framed, circle_inside(cx, cy, 50), BLUE), circle_border(cx, cy, 50), RED)
}

/// Byte `k` of pixel (px, py) of the boot screen. The red, green and blue bars are 341
/// columns wide each and span every row; the last column, 1023, stays cleared (all bytes
/// zero). Over them lies the black rectangle of columns 212 to 811 and rows 184 to 583, and
/// over that the circle about (512, 234): red where the squared distance `d` from the center
/// lies between 49^2 and 51^2 within 50 pixels of the center in both directions, else blue
/// where `d < 49^2`.
pub open spec fn boot_screen_byte(px: int, py: int, k: int) -> u8 {
    let d = sq_dist(px, py, 512, 234);
    if abs_diff(px, 512) <= 50 && abs_diff(py, 234) <= 50 && 49 * 49 <= d <= 51 * 51 {
        bgra_byte(RED, k)
    } else if d < 49 * 49 {
        bgra_byte(BLUE, k)
    } else if 212 <= px < 812 && 184 <= py < 584 {
        bgra_byte(BLACK, k)
    } else if px < 341 {
        bgra_byte(RED, k)
    } else if px < 682 {
        bgra_byte(GREEN, k)
    } else if px < 1023 {
        bgra_byte(BLUE, k)
    } else {
        0
    }
}

/// Every byte of every pixel of the test pattern is that of the boot screen.
pub proof fn lemma_test_pattern_pixels(px: int, py: int, k: int)
    requires
        on_screen(px, py),
        0 <= k < BPP,
    ensures
        pixel_byte(test_pattern(), px, py, k) == boot_screen_byte(px, py, k),
{
    let h = HEIGHT as int;
    let b1 = paint(cleared(), rect(0, 0, 341, h), RED);
    let b2 = paint(b1, rect(341, 0, 341, h), GREEN);
    let b3 = paint(b2, rect(682, 0, 341, h), BLUE);
    let framed = paint(b3, rect(212, 184, 600, 400), BLACK);
    lemma_paint_pixel(cleared(), rect(0, 0, 341, h), RED, px, py, k);
    lemma_paint_pixel(b1, rect(341, 0, 341, h), GREEN, px, py, k);
    lemma_paint_pixel(b2, rect(682, 0, 341, h), BLUE, px, py, k);
    lemma_paint_pixel(b3, rect(212, 184, 600, 400), BLACK, px, py, k);
    lemma_circle_pixel(framed, 512, 234, 50, BLUE, RED, px, py, k);
    assert(test_pattern() == paint(
        paint(framed, circle_inside(512, 234, 50), BLUE),
        circle_border(512, 234, 50),
        RED,
    ));
}

/// Clears the screen and draws the boot test pattern on it.
pub fn draw_test_pattern(fb: &mut FrameBufferWriter)
    requires
        old(fb).wf(),
    ensures
        final(fb).wf(),
        final(fb)@ == test_pattern(),
        forall|px: int, py: int, k: int|
            on_screen(px, py) && 0 <= k < BPP ==> #[trigger] pixel_byte(final(fb)@, px, py, k)
                == boot_screen_byte(px, py, k),
{
    fb.clear_screen();
    // Red, green and blue vertical bars
    let bar_width: usize = fb.width() / 3;
    fb.draw_rect(0, 0, bar_width, fb.height(), &RED);
    fb.draw_rect(bar_width, 0, bar_width, fb.height(), &GREEN);
    fb.draw_rect(bar_width * 2, 0, bar_width, fb.height(), &BLUE);
    // A black rectangle in the middle
    let rect_width: usize = 600;
    let rect_height: usize = 400;
    let x: usize = (fb.width() - rect_width) / 2;
    let y: usize = (fb.height() - rect_height) / 2;
    fb.draw_rect(x, y, rect_width, rect_height, &BLACK);
    // A circle with a red border, filled with blue
    let circle_x: usize = fb.width() / 2;
    let circle_y: usize = fb.height() / 2 - 150;
    let circle_radius: usize = 50;
    assert(circle_x == 512 && circle_y == 234);
    assert(span_extent(512, 50, WIDTH as int) == 50);
    assert(span_extent(234, 50, HEIGHT as int) == 50);
    assert(farthest_sq_dist(512, 234, 50) == 5000);
    assert(circle_fits(512, 234, 50));
    fb.draw_circle(circle_x, circle_y, circle_radius, &BLUE, &RED);
    assert forall|px: int, py: int, k: int| on_screen(px, py) && 0 <= k < BPP implies #[trigger] pixel_byte(
        fb@,
        px,
        py,
        k,
    ) == boot_screen_byte(px, py, k) by {
        lemma_test_pattern_pixels(px, py, k);
    }
}

} // verus!
