//! A BitTorrent tracker core.
//!
//! - [`bencode`]: the bencode values, their dictionary, and the codec that
//!   writes them to bytes and reads them back, with the proof that reading
//!   undoes writing.
//! - [`metainfo`]: the schema of torrent files and its mapping to and from
//!   bencode dictionaries.
//! - [`tracker`]: the query string of an announce request, the request, the
//!   response, and what the tracker answers to the bytes that a client sent.
//! - [`peer`]: the handshake of the peer wire protocol and the answer to it.
//! - [`torrent`]: making the torrent of one file.
//! - [`config`]: the settings of the tracker and how the command line makes
//!   them.
//! - [`bytes`]: small helpers on byte strings.

pub mod bencode;
pub mod bytes;
pub mod config;
pub mod metainfo;
pub mod peer;
pub mod torrent;
pub mod tracker;
