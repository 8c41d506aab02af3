//! The linear framebuffer: its geometry, its colors and the writer that draws on it.

pub mod constants;
pub mod vbe;
pub mod writer;

pub use constants::{
    BLACK, BLUE, BPP, CYAN, GREEN, HEIGHT, MAGENTA, ORANGE, RED, VBE_DISPI_ENABLED,
    VBE_DISPI_INDEX_BANK, VBE_DISPI_INDEX_BPP, VBE_DISPI_INDEX_ENABLE, VBE_DISPI_INDEX_ID,
    VBE_DISPI_INDEX_VIRT_HEIGHT, VBE_DISPI_INDEX_VIRT_WIDTH, VBE_DISPI_INDEX_XRES,
    VBE_DISPI_INDEX_X_OFFSET, VBE_DISPI_INDEX_YRES, VBE_DISPI_INDEX_Y_OFFSET,
    VBE_DISPI_IOPORT_DATA, VBE_DISPI_IOPORT_INDEX, VBE_DISPI_LFB_ENABLED, WHITE, WIDTH, YELLOW,
    BUFFER_SIZE, FB_ADDR, PAGE_SIZE,
};
pub use writer::FrameBufferWriter;
