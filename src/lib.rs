//! Streaming extraction of self-framed binary messages, and a sequencer that
//! packs written bytes into the parts of a multi-part upload.
pub mod buffer;
pub mod framer;
pub mod upload;
pub mod framing_laws;
pub mod classify;
