pub mod async_io;
pub mod binding;
pub mod bundle;
pub mod bus;
pub mod capture;
pub mod gl_decode;
pub mod gl_trace;
pub mod image;
pub mod live_gl;
pub mod memscan;
pub mod rasterizer;
pub mod runner;
pub mod texgen;
pub mod usse;

pub use gl_decode::{
    bytes_from_snapshot, first_frame, format_from_gl, pix_payload_size, register, stack_word,
    texture_upload_candidates, words_from_snapshot, TextureUploadCandidate,
};
pub use gl_trace::{
    hex_bytes, GlFileBacking, GlFrameRecord, GlImportRecord, GlMemoryRegion, GlMemorySnapshot,
    GlRegisterSnapshot, GlStackWordSnapshot, GlTraceFixture, GlTraceRecorder, GlValueClass,
};
pub use image::{EappBuildError, EappHeader, EappImage, EappImportModule, EappKey, EappMetadata};
pub use live_gl::LiveGlState;
pub use rasterizer::{blend_src_over, decode_texture_pixels, framebuffer_hash, Rgba8, Texture, TextureFormat};
pub use usse::{UsseProgram, UsseVm};
