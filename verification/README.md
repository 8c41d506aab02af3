# blog_os_fb

Drawing on the 1024x768, 32 bits per pixel linear framebuffer of a Bochs VBE adapter,
with every drawing operation specified over the bytes of the framebuffer and proved.

- `src/framebuffer/writer.rs`: `FrameBufferWriter` (pixels, rectangles, circles,
  clearing) and the byte-level model that its contracts are stated in.
- `src/framebuffer/vbe.rs`: the port accesses that switch the adapter to the mode, and a
  proof, over the crate's own model of the adapter's index and data ports (`port_step`),
  that they leave its registers set to it.
- `src/kernel.rs`: the pages that the framebuffer spans and the boot test pattern.
- `src/task/print_queue.rs`: the bounded FIFO of print jobs, over `crossbeam_queue::ArrayQueue`.
- `app/`: the kernel around the library: port I/O, page mapping, reading video memory
  into the writer and copying the drawn framebuffer back, the global print queue and its
  stream, the PS/2 mouse.
