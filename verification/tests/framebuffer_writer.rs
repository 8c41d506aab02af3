use std::fmt::Write;
use blog_os_fb::framebuffer::{
    FrameBufferWriter, BLACK, BLUE, BPP, BUFFER_SIZE, GREEN, HEIGHT, RED, WHITE, WIDTH, YELLOW,
};

fn blank() -> FrameBufferWriter {
    FrameBufferWriter::new(vec![0u8; BUFFER_SIZE]).unwrap()
}

fn pixel(fb: &FrameBufferWriter, x: usize, y: usize) -> [u8; 4] {
    let o = (y * WIDTH + x) * BPP;
    let b = fb.bytes();
    [b[o], b[o + 1], b[o + 2], b[o + 3]]
}

fn count_nonzero(fb: &FrameBufferWriter) -> usize {
    fb.bytes().iter().filter(|b| **b != 0).count()
}

#[test]
fn dimensions_are_1024_by_768() {
    let fb = blank();
    assert_eq!(fb.width(), 1024);
    assert_eq!(fb.height(), 768);
    assert_eq!(fb.bytes().len(), BUFFER_SIZE);
    assert_eq!(BUFFER_SIZE, WIDTH * HEIGHT * BPP);
}

#[test]
fn new_keeps_what_the_screen_shows() {
    let screen: Vec<u8> = (0..BUFFER_SIZE).map(|i| (i % 251) as u8).collect();
    let mut fb = FrameBufferWriter::new(screen.clone()).unwrap();
    assert!(fb.bytes() == &screen[..]);
    fb.set_pixel(0, 0, &RED);
    assert_eq!(pixel(&fb, 0, 0), [0, 0, 255, 255]);
    assert!(fb.bytes()[4..] == screen[4..]);
}

#[test]
fn new_refuses_a_buffer_of_the_wrong_size() {
    assert!(FrameBufferWriter::new(vec![0u8; BUFFER_SIZE - 1]).is_none());
    assert!(FrameBufferWriter::new(vec![0u8; BUFFER_SIZE + 4]).is_none());
    assert!(FrameBufferWriter::new(Vec::new()).is_none());
}

#[test]
fn written_text_is_discarded() {
    let mut fb = blank();
    fb.set_pixel(3, 3, &WHITE);
    let before = fb.bytes().to_vec();
    assert!(fb.write_str("hello").is_ok());
    assert!(fb.write_char('x').is_ok());
    assert!(fb.bytes() == &before[..]);
}

#[test]
fn set_pixel_stores_bgra() {
    let mut fb = blank();
    fb.set_pixel(1, 2, &[10, 20, 30]);
    assert_eq!(pixel(&fb, 1, 2), [30, 20, 10, 255]);
    let o = (2 * 1024 + 1) * 4;
    assert_eq!(&fb.bytes()[o..o + 4], &[30, 20, 10, 255]);
    assert_eq!(count_nonzero(&fb), 4);
}

#[test]
fn set_pixel_off_screen_is_ignored() {
    let mut fb = blank();
    fb.set_pixel(1024, 0, &RED);
    fb.set_pixel(0, 768, &RED);
    fb.set_pixel(usize::MAX, usize::MAX, &RED);
    assert_eq!(count_nonzero(&fb), 0);
    fb.set_pixel(1023, 767, &WHITE);
    assert_eq!(pixel(&fb, 1023, 767), [255, 255, 255, 255]);
}

#[test]
fn set_pixel_last_color_wins() {
    let mut fb = blank();
    fb.set_pixel(5, 5, &RED);
    fb.set_pixel(5, 5, &BLUE);
    assert_eq!(pixel(&fb, 5, 5), [255, 0, 0, 255]);
    assert_eq!(count_nonzero(&fb), 2);
}

#[test]
fn fill_paints_exactly_the_rectangle() {
    let mut fb = blank();
    fb.fill(10, 20, 3, 2, &GREEN);
    for y in 20..22 {
        for x in 10..13 {
            assert_eq!(pixel(&fb, x, y), [0, 255, 0, 255]);
        }
    }
    assert_eq!(pixel(&fb, 13, 20), [0, 0, 0, 0]);
    assert_eq!(pixel(&fb, 9, 20), [0, 0, 0, 0]);
    assert_eq!(pixel(&fb, 10, 22), [0, 0, 0, 0]);
    assert_eq!(pixel(&fb, 10, 19), [0, 0, 0, 0]);
    assert_eq!(count_nonzero(&fb), 3 * 2 * 2);
}

#[test]
fn fill_is_cut_at_the_screen_edges() {
    let mut fb = blank();
    fb.fill(1020, 766, 10, 10, &YELLOW);
    assert_eq!(pixel(&fb, 1023, 767), [0, 255, 255, 255]);
    assert_eq!(pixel(&fb, 1020, 766), [0, 255, 255, 255]);
    // nothing wraps into the next row
    assert_eq!(pixel(&fb, 0, 767), [0, 0, 0, 0]);
    assert_eq!(count_nonzero(&fb), 4 * 2 * 3);
}

#[test]
fn fill_off_screen_or_empty_is_ignored() {
    let mut fb = blank();
    fb.fill(1024, 0, 10, 10, &RED);
    fb.fill(0, 768, 10, 10, &RED);
    fb.fill(usize::MAX, 0, 10, 10, &RED);
    fb.fill(5, 5, 0, 10, &RED);
    fb.fill(5, 5, 10, 0, &RED);
    assert_eq!(count_nonzero(&fb), 0);
}

#[test]
fn fill_one_by_one_matches_set_pixel() {
    let mut a = blank();
    let mut b = blank();
    a.fill(7, 9, 1, 1, &[1, 2, 3]);
    b.set_pixel(7, 9, &[1, 2, 3]);
    assert!(a.bytes() == b.bytes());
    assert_eq!(pixel(&a, 7, 9), [3, 2, 1, 255]);
}

#[test]
fn draw_rect_is_fill() {
    let mut a = blank();
    let mut b = blank();
    a.draw_rect(100, 200, 50, 60, &BLUE);
    b.fill(100, 200, 50, 60, &BLUE);
    assert!(a.bytes() == b.bytes());
    assert_eq!(pixel(&a, 149, 259), [255, 0, 0, 255]);
    assert_eq!(pixel(&a, 150, 259), [0, 0, 0, 0]);
}

#[test]
fn fill_twice_is_fill_once() {
    let mut a = blank();
    let mut b = blank();
    a.fill(3, 4, 5, 6, &RED);
    a.fill(3, 4, 5, 6, &GREEN);
    b.fill(3, 4, 5, 6, &GREEN);
    assert!(a.bytes() == b.bytes());
}

#[test]
fn clear_screen_zeroes_everything() {
    let mut fb = blank();
    fb.fill(0, 0, 1024, 768, &WHITE);
    assert_eq!(count_nonzero(&fb), BUFFER_SIZE);
    fb.clear_screen();
    assert_eq!(count_nonzero(&fb), 0);
}

#[test]
fn black_fill_is_opaque() {
    let mut fb = blank();
    fb.fill(0, 0, 1, 1, &BLACK);
    assert_eq!(pixel(&fb, 0, 0), [0, 0, 0, 255]);
}

#[test]
fn circle_inside_and_border() {
    let mut fb = blank();
    fb.draw_circle(100, 100, 3, &BLUE, &RED);
    let blue = [255, 0, 0, 255];
    let red = [0, 0, 255, 255];
    let none = [0, 0, 0, 0];
    // the center is inside
    assert_eq!(pixel(&fb, 100, 100), blue);
    assert_eq!(pixel(&fb, 101, 101), blue);
    // at distance 2 = radius - 1: inside, then painted over by the border
    assert_eq!(pixel(&fb, 102, 100), red);
    // at distance 3 and sqrt(13): border
    assert_eq!(pixel(&fb, 103, 100), red);
    assert_eq!(pixel(&fb, 97, 100), red);
    assert_eq!(pixel(&fb, 103, 102), red);
    // at sqrt(18) > radius + 1: nothing
    assert_eq!(pixel(&fb, 103, 103), none);
    // outside the square of the radius: nothing
    assert_eq!(pixel(&fb, 104, 100), none);
    assert_eq!(pixel(&fb, 100, 96), none);
}

#[test]
fn circle_of_radius_one_has_only_a_border() {
    let mut fb = blank();
    fb.draw_circle(10, 10, 1, &BLUE, &RED);
    let red = [0, 0, 255, 255];
    for y in 9..12 {
        for x in 9..12 {
            assert_eq!(pixel(&fb, x, y), red);
        }
    }
    assert_eq!(count_nonzero(&fb), 9 * 2);
}

#[test]
fn circle_is_cut_at_the_screen_corner() {
    let mut fb = blank();
    fb.draw_circle(0, 0, 2, &GREEN, &WHITE);
    let white = [255, 255, 255, 255];
    assert_eq!(pixel(&fb, 2, 0), white);
    assert_eq!(pixel(&fb, 0, 2), white);
    assert_eq!(pixel(&fb, 1, 0), white);
    assert_eq!(pixel(&fb, 2, 2), white);
    assert_eq!(pixel(&fb, 0, 0), [0, 255, 0, 255]);
    assert_eq!(pixel(&fb, 3, 0), [0, 0, 0, 0]);
}

#[test]
fn circle_off_screen_draws_nothing() {
    let mut fb = blank();
    fb.draw_circle(2000, 2000, 10, &GREEN, &WHITE);
    fb.draw_circle(5000, 10, 0, &GREEN, &WHITE);
    // no row of the square is on the screen, so its columns are never computed
    fb.draw_circle(usize::MAX, 10000, 1, &GREEN, &WHITE);
    assert_eq!(count_nonzero(&fb), 0);
}

#[test]
fn fill_is_setting_each_pixel_in_any_order() {
    let mut a = blank();
    let mut b = blank();
    a.fill(1, 200, 1, 1, &GREEN);
    b.fill(1, 200, 1, 1, &GREEN);
    a.fill(30, 40, 4, 3, &[7, 8, 9]);
    for cy in (40..43).rev() {
        for cx in [32, 30, 33, 31] {
            b.set_pixel(cx, cy, &[7, 8, 9]);
        }
    }
    assert!(a.bytes() == b.bytes());
}
