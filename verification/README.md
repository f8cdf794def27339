# clicky_core

The host side of an iPod click-wheel game runner and the pieces of the
iPod 4G system model that stand on their own, written in Verus: every
function in `src/` carries a contract and is verified.

## Layout

- `src/text.rs`, `src/parse.rs`: hexadecimal and decimal text, trimming,
  splitting, unsigned number parsing, code-point string order and sorting.
- `src/sys/eapp/`: the eApp runner.
  - `image.rs`: executable header and import-module parsing.
  - `binding.rs`: import trampolines, import and OpenGLES call routing,
    the per-step dispatch and the bootstrap phases.
  - `async_io.rs`: the asynchronous file-I/O protocol (handles, request
    objects, staged files, the guest callback queue) and guest path strings.
  - `bus.rs`: the guest memory map, the DMA framebuffer and write watches.
  - `capture.rs`, `gl_trace.rs`, `gl_decode.rs`: capturing OpenGLES calls
    into trace records and decoding texture uploads back out of them.
  - `live_gl.rs`: the live OpenGLES state: uploads, vertex arrays, frame
    lifecycle, presentation and texture selection.
  - `rasterizer.rs`: texel decoding, blending, bundle image formats and PPM.
  - `memscan.rs`: searches over a work-RAM snapshot.
  - `texgen.rs`: recognizing the guest font renderer's text objects,
    cursors and glyph column counts.
  - `runner.rs`, `bundle.rs`, `usse.rs`: input scripts, bundle manifests and
    the render-server program reader.
- `src/sys/ipod4g.rs`, `src/sys/ipod4g_bus.rs`: boot selection, the bring-up
  watchdog and the physical memory map.
- `src/devices/platform/pp/eide.rs`: the EIDE controller's registers and DMA.
- `app/`: ordinary Rust around the library: files, environment settings,
  JSON trace fixtures, error types that print, host controls and the
  floating-point rasterizer.
- `tests/`: tests of the library through its public interface.

## Not in this crate

The runner loop itself (`Eapp`: the ARM CPU, its guest memory and the
per-step import dispatch) and the iPod 4G system (`Ipod4g`) are not here.
Both are built on an ARMv4T emulator crate and on system modules (guest
memory, devices, signals, the GUI) that this crate does not have. What
they decide is here as plain functions and state machines the loop would
call: the import and OpenGLES routing, the async file protocol, the live
GL state and its frame lifecycle, the text-cursor heuristics, the bus
model and the bring-up watchdog.
