//! The bencode codec: value model, dictionary, encoder and decoder.

pub mod canonical;
pub mod data;
pub mod decode;
pub mod dictionary;
pub mod encode;
pub mod entries;
pub mod grammar;
pub mod order;
pub mod roundtrip;
pub mod value;

pub use data::{Data, FromData, FromDataError};
pub use decode::{
    decode, decode_vec, try_decode_from, try_decode_from_str, try_decode_from_vec, ByteCursor,
    DataParseError,
};
pub use dictionary::Dictionary;
pub use encode::encode;
pub use value::Value;
