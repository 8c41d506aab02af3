use vstd::prelude::*;

verus! {

/// Colors, as `[red, green, blue]`.
pub const RED: [u8; 3] = [255, 0, 0];
pub const ORANGE: [u8; 3] = [255, 165, 0];
pub const YELLOW: [u8; 3] = [255, 255, 0];
pub const GREEN: [u8; 3] = [0, 255, 0];
pub const CYAN: [u8; 3] = [0, 255, 255];
pub const BLUE: [u8; 3] = [0, 0, 255];
pub const MAGENTA: [u8; 3] = [255, 0, 255];
pub const WHITE: [u8; 3] = [255, 255, 255];
pub const BLACK: [u8; 3] = [0, 0, 0];

/// Screen width in pixels.
pub const WIDTH: usize = 1024;

/// Screen height in pixels.
pub const HEIGHT: usize = 768;

/// Bytes per pixel: 32-bit color, stored as blue, green, red, alpha.
pub const BPP: usize = 4;

/// Size in bytes of the whole framebuffer.
pub const BUFFER_SIZE: usize = 3145728;

/// Physical base address of the Bochs VBE linear framebuffer.
pub const FB_ADDR: u64 = 0xFD000000;

/// Size of the pages through which the framebuffer is mapped.
pub const PAGE_SIZE: u64 = 4096;

// VBE registers (Bochs VBE extensions)
pub const VBE_DISPI_INDEX_ID: u16 = 0x0;
pub const VBE_DISPI_INDEX_XRES: u16 = 0x1;
pub const VBE_DISPI_INDEX_YRES: u16 = 0x2;
pub const VBE_DISPI_INDEX_BPP: u16 = 0x3;
pub const VBE_DISPI_INDEX_ENABLE: u16 = 0x4;
pub const VBE_DISPI_INDEX_BANK: u16 = 0x5;
pub const VBE_DISPI_INDEX_VIRT_WIDTH: u16 = 0x6;
pub const VBE_DISPI_INDEX_VIRT_HEIGHT: u16 = 0x7;
pub const VBE_DISPI_INDEX_X_OFFSET: u16 = 0x8;
pub const VBE_DISPI_INDEX_Y_OFFSET: u16 = 0x9;

// VBE I/O ports
pub const VBE_DISPI_IOPORT_INDEX: u16 = 0x01CE;
pub const VBE_DISPI_IOPORT_DATA: u16 = 0x01CF;

// VBE enable flags
pub const VBE_DISPI_ENABLED: u16 = 0x01;
pub const VBE_DISPI_LFB_ENABLED: u16 = 0x40;

/// The framebuffer holds exactly one `BPP`-byte cell for every pixel.
pub proof fn lemma_buffer_size()
    ensures
        BUFFER_SIZE == WIDTH * HEIGHT * BPP,
{
}

} // verus!
