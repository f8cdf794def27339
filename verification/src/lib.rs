//! Verified core of a click-wheel game runner: texture and image decoding,
//! software blending, GL trace bookkeeping, eApp image parsing and the
//! render-server program scanner.
pub mod devices;
pub mod parse;
pub mod sys;
pub mod text;
