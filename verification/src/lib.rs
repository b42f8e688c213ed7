//! A verified decoder for the RESP wire format: the byte protocol that
//! Redis-compatible clients and servers use to exchange typed replies.
//!
//! The decoder turns a byte stream into a typed, recursively structured
//! value. Every public function carries a contract that pins its result
//! down to a mathematical model of the protocol, so decoding is proved to
//! be a pure function of the input bytes.

pub mod source;
pub mod value;
pub mod line;
pub mod tag;
pub mod integer;
pub mod bulk;
pub mod decoder;
pub mod laws;
