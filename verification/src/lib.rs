//! Core of a screen-casting tool: capture of display snapshots into RGBA
//! frame buffers, in-place redaction transforms (percentage cropping and
//! whole-frame blanking), a length-prefixed wire codec for frames, the
//! server-side client registry for broadcasting, and the client-side read
//! loop's decision logic.

pub mod client;
pub mod codec;
pub mod screen;
pub mod server;
