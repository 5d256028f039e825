//! The protocol and codec core of a Remote Desktop Protocol client: the
//! structural message kernel every wire structure is expressed on, the PER
//! subset used at conference setup, the GCC conference-create exchange, the
//! licensing acceptance rules, the input event bodies, the two bitmap
//! decompressors, and the framebuffer blit. Every function is verified
//! against the contracts stated here; the byte-level I/O around the core
//! stays outside the library.

pub mod bitmap;
pub mod data;
pub mod error;
pub mod event;
pub mod gcc;
pub mod hex;
pub mod license;
pub mod per;
pub mod rle;
pub mod unicode;
