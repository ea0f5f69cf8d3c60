//! The torrent-file schema and its mapping to and from bencode dictionaries.

pub mod file;
pub mod file_info;
pub mod info;
pub mod keys;
pub mod lossless;
pub mod meta_info;

pub use crate::bencode::data::FromDataError;
pub use file::File;
pub use file_info::FileInfo;
pub use info::Info;
pub use meta_info::MetaInfo;
