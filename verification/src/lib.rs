//! A reader and writer for the OpenStreetMap PBF file format (`*.osm.pbf`).
//!
//! A PBF file is a sequence of length-prefixed, optionally zlib-compressed
//! blobs.  Each blob decodes to either a header block (file metadata) or a
//! primitive block holding nodes, ways and relations in delta-compressed
//! form with a per-block string interning table.

pub mod blob;
pub mod block;
pub mod delta;
pub mod dense;
pub mod elements;
pub mod error;
pub mod fileformat;
pub mod indexed;
pub mod mmap_blob;
pub mod osmformat;
pub mod pbf;
pub mod reader;
pub mod strutil;
pub mod wire;
pub mod writer;
pub mod zlib;
