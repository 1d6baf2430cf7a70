//! A dictionary coder for bytes in the manner of Lempel, Ziv and Welch.
//!
//! An encoder replaces the phrases of its input by codes of a dictionary that
//! it builds while it reads. A decoder builds the same dictionary from the
//! codes alone and writes the input back. The codes are packed bit by bit,
//! with a width that is fixed for a code type or grows with the dictionary.
//!
//! - `bits`: numbers as sequences of bits.
//! - `bit_stream`: bits in bytes, a writer and a reader.
//! - `traits`, `like_u12`, `like_u16`, `like_u32`, `like_u64`: the code types.
//! - `dictionary`: the alphabet and the learned phrases.
//! - `format`: the parameters of a stream and its header.
//! - `bit_encoder`, `bit_decoder`: the two directions, each with its model.
//! - `dispatch`: encoder and decoder by the code type that a header names.
//! - `round_trip`: decoding gives back what was encoded.
//! - `error`: the reasons for which a value or a stream is refused.

pub mod bit_decoder;
pub mod bit_encoder;
pub mod bit_stream;
pub mod bits;
pub mod dictionary;
pub mod dispatch;
pub mod error;
pub mod format;
pub mod like_u12;
pub mod like_u16;
pub mod like_u32;
pub mod like_u64;
pub mod round_trip;
pub mod traits;
