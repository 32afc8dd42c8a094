//! Reader for DRS game-asset archives.
//!
//! An archive bundles typed sub-files (sprites, shapes, raw binaries, audio)
//! behind a directory of tables. This crate parses that index out of a byte
//! buffer and hands out the bytes of a sub-file by kind and identifier.
//! Every function is verified: contracts are stated over the byte sequence
//! of the buffer.
//!
//! - `kind`: the kinds of sub-file and their extension codes.
//! - `layout`: the binary layout and the parsers of its three blocks.
//! - `archive`: loading, lookups and listing.
//! - `request`: requests by name, such as `50500.bin`.
//! - `text`: numbers and names as a listing shows them.
//! - `browse`: the decisions of an entry browser.
//! - `error`: what loading and lookups report.

pub mod error;
pub mod kind;
pub mod layout;
pub mod archive;
pub mod request;
pub mod text;
pub mod browse;
