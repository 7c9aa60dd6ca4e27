//! Decoder for one on-disk record of a page-oriented database file format.
//!
//! A record is a self-describing byte sequence: an optional row identifier
//! (present only in table records), a header that declares one serial-type
//! tag per column, and the tightly packed payload bytes of every column in
//! declaration order.  Both the row identifier and every header field use
//! the format's base-128, big-endian, continuation-bit variable-length
//! integer encoding.
//!
//! The crate is organised bottom-up:
//! - [`varint`]: the variable-length integer codec;
//! - [`text`]: UTF-8 helpers for text and blob payloads;
//! - [`record`]: the serial-type tag vocabulary, the typed value model and
//!   the record decoder itself.
pub mod error;
pub mod record;
pub mod text;
pub mod varint;
