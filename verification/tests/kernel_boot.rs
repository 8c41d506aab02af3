use blog_os_fb::framebuffer::vbe::{init_vbe_mode, PortAccess};
use blog_os_fb::framebuffer::{FrameBufferWriter, BUFFER_SIZE, BPP, FB_ADDR, WIDTH};
use blog_os_fb::kernel::{draw_test_pattern, framebuffer_page_addrs};

fn blank() -> FrameBufferWriter {
    FrameBufferWriter::new(vec![0u8; BUFFER_SIZE]).unwrap()
}

fn pixel(fb: &FrameBufferWriter, x: usize, y: usize) -> [u8; 4] {
    let o = (y * WIDTH + x) * BPP;
    let b = fb.bytes();
    [b[o], b[o + 1], b[o + 2], b[o + 3]]
}

#[test]
fn vbe_program_sets_1024x768x32() {
    let w = |port: u16, value: u16| PortAccess::Write { port, value };
    let r = |port: u16| PortAccess::Read { port };
    let expected = vec![
        w(0x1CE, 4),
        w(0x1CF, 0),
        w(0x1CE, 1),
        w(0x1CF, 1024),
        w(0x1CE, 2),
        w(0x1CF, 768),
        w(0x1CE, 3),
        w(0x1CF, 32),
        w(0x1CE, 4),
        w(0x1CF, 0x41),
        w(0x1CE, 1),
        r(0x1CF),
        w(0x1CE, 2),
        r(0x1CF),
        w(0x1CE, 3),
        r(0x1CF),
        w(0x1CE, 4),
        r(0x1CF),
    ];
    assert_eq!(init_vbe_mode(), expected);
}

#[test]
fn framebuffer_spans_768_pages() {
    let pages = framebuffer_page_addrs();
    assert_eq!(pages.len(), 768);
    assert_eq!(pages[0], 0xFD00_0000);
    assert_eq!(pages[1], 0xFD00_1000);
    assert_eq!(pages[767], FB_ADDR + 767 * 4096);
}

#[test]
fn test_pattern_bars_rectangle_and_circle() {
    let mut fb = blank();
    fb.fill(0, 0, 1024, 768, &[9, 9, 9]);
    draw_test_pattern(&mut fb);
    let red = [0, 0, 255, 255];
    let green = [0, 255, 0, 255];
    let blue = [255, 0, 0, 255];
    let black = [0, 0, 0, 255];
    assert_eq!(pixel(&fb, 0, 0), red);
    assert_eq!(pixel(&fb, 340, 767), red);
    assert_eq!(pixel(&fb, 341, 0), green);
    assert_eq!(pixel(&fb, 681, 100), green);
    assert_eq!(pixel(&fb, 682, 0), blue);
    assert_eq!(pixel(&fb, 1022, 767), blue);
    // three bars of 341 pixels leave the last column as cleared
    assert_eq!(pixel(&fb, 1023, 0), [0, 0, 0, 0]);
    // the black rectangle covers (212, 184) .. (811, 583)
    assert_eq!(pixel(&fb, 212, 184), black);
    assert_eq!(pixel(&fb, 811, 583), black);
    assert_eq!(pixel(&fb, 211, 184), red);
    assert_eq!(pixel(&fb, 812, 583), blue);
    // the circle about (512, 234), radius 50
    assert_eq!(pixel(&fb, 512, 234), blue);
    assert_eq!(pixel(&fb, 562, 234), red);
    assert_eq!(pixel(&fb, 512, 184), red);
    assert_eq!(pixel(&fb, 512, 180), green);
}
