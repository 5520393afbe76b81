//! Decoder for Nikon NEF raw photographs.
//!
//! A NEF file is a little-endian TIFF container: a chain of image file
//! directories, one of which describes a compressed strip of sensor data. The
//! parameters of the compression live in a vendor directory, the MakerNote.
//! This crate walks the directories, reads the decoder parameters, and turns
//! the strip into a plane of linearised 16-bit samples.
//!
//! Every function is verified: none panics, and each contract states the
//! result over the byte sequence it was computed from.
//!
//! - `utils`: integer reads at a cursor
//! - `tags`, `ifd`: directory entries and the walk over the directories
//! - `curve`: the linearisation curve and its dither
//! - `pump`: the bit reader
//! - `hufftable`: Huffman tables as a direct lookup
//! - `decoder`: the Nikon tables, the decoder parameters, the decode loop
//! - `nef`: a file as a whole
//! - `unpacked`: images of unpacked samples
//! - `huffman`: a Huffman coder for byte strings, apart from the decoder

pub mod curve;
pub mod decoder;
pub mod error;
pub mod huffman;
pub mod hufftable;
pub mod ifd;
pub mod nef;
pub mod pump;
pub mod tags;
pub mod unpacked;
pub mod utils;
