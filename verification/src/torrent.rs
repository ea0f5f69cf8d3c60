//! Making the torrent of one file: the digests of its pieces, its info hash
//! and its announce address.

use vstd::prelude::*;
use vstd::slice::slice_subrange;
use vstd::string::StringSliceAdditionalSpecFns;
use crate::bencode::encode::{encode, push_decimal};
use crate::bencode::value::{decimal, encoding, Value};
use crate::bytes::push_all;
use crate::metainfo::file_info::{FileInfo, FileInfoModel};
use crate::metainfo::info::{info_entries, Info, InfoModel};
use crate::metainfo::meta_info::MetaInfo;

verus! {

/// The number of bytes in each piece of a torrent made here.
pub const PIECE_LENGTH: usize = 16384;

/// The most bytes that can be hashed in one go, and one more.
pub const HASH_LIMIT: u64 = 0x2000_0000_0000_0000;

/// The SHA-1 digest of a byte string.
pub uninterp spec fn sha1(data: Seq<u8>) -> Seq<u8>;

/// The SHA-1 digest of `data`.
///
/// This calls `sha1_smol::Sha1::from`, `Sha1::digest` and `Digest::bytes`.
/// The digest depends on the bytes alone, and the contract gives it the name
/// [`sha1`] without saying more of it. Inputs of 2^61 bytes or more are left
/// out: their length in bits does not fit the counter of the hasher.
#[verifier::external_body]
pub(crate) fn sha1_digest(data: &[u8]) -> (digest: [u8; 20])
    requires
        data@.len() < HASH_LIMIT,
    ensures
        digest@ == sha1(data@),
{
    sha1_smol::Sha1::from(data).digest().bytes()
}

/// The digests of the pieces of `content`, one after the other. Every piece
/// has `piece_length` bytes but the last, which has what is left.
pub open spec fn piece_digests(content: Seq<u8>, piece_length: nat) -> Seq<u8>
    decreases content.len(),
{
    if content.len() == 0 || piece_length == 0 {
        Seq::empty()
    } else if content.len() <= piece_length {
        sha1(content)
    } else {
        sha1(content.take(piece_length as int)) + piece_digests(
            content.skip(piece_length as int),
            piece_length,
        )
    }
}

/// The number of pieces of a content of `length` bytes: `length` divided by
/// the length of a piece, rounded up.
pub open spec fn piece_count(length: nat, piece_length: nat) -> nat {
    ((length + piece_length - 1) / (piece_length as int)) as nat
}

/// A content that ends in the piece behind `full` whole pieces has one piece
/// more than those.
proof fn lemma_piece_count(full: nat, length: nat, piece_length: nat)
    requires
        piece_length > 0,
        full * piece_length < length <= (full + 1) * piece_length,
    ensures
        piece_count(length, piece_length) == full + 1,
{
    let over = length + piece_length - 1 - (full + 1) * piece_length;
    assert(length + piece_length - 1 == (full + 1) * piece_length + over);
    assert(0 <= over < piece_length) by (nonlinear_arith)
        requires
            over == length + piece_length - 1 - (full + 1) * piece_length,
            full * piece_length < length <= (full + 1) * piece_length,
            piece_length > 0,
    ;
    vstd::arithmetic::div_mod::lemma_fundamental_div_mod_converse(
        length + piece_length - 1,
        piece_length as int,
        full as int + 1,
        over,
    );
}

/// The digests of the pieces of `content`, one after the other: 20 bytes for
/// each piece.
pub fn hash_pieces(content: &[u8], piece_length: usize) -> (pieces: Vec<u8>)
    requires
        0 < piece_length < HASH_LIMIT,
    ensures
        pieces@ == piece_digests(content@, piece_length as nat),
        pieces@.len() == 20 * piece_count(content@.len(), piece_length as nat),
{
    let mut pieces: Vec<u8> = Vec::new();
    let mut start: usize = 0;
    let ghost mut full: nat = 0;
    assert(content@.skip(0) =~= content@);
    proof {
        if content@.len() == 0 {
            vstd::arithmetic::div_mod::lemma_fundamental_div_mod_converse(
                piece_length - 1,
                piece_length as int,
                0,
                piece_length - 1,
            );
        }
    }
    while start < content.len()
        invariant
            start <= content.len(),
            0 < piece_length < HASH_LIMIT,
            start < content.len() ==> start == full * piece_length,
            start < content.len() ==> pieces@.len() == 20 * full,
            start == content.len() ==> pieces@.len() == 20 * piece_count(
                content@.len(),
                piece_length as nat,
            ),
            piece_digests(content@, piece_length as nat) == pieces@ + piece_digests(
                content@.skip(start as int),
                piece_length as nat,
            ),
        decreases content.len() - start,
    {
        let ghost rest = content@.skip(start as int);
        let ghost done = pieces@;
        let end: usize = if content.len() - start <= piece_length {
            content.len()
        } else {
            start + piece_length
        };
        let piece = slice_subrange(content, start, end);
        let digest = sha1_digest(piece);
        push_all(&mut pieces, digest.as_slice());
        proof {
            assert(pieces@.len() == done.len() + 20);
            if content.len() - start <= piece_length {
                assert((full + 1) * piece_length == full * piece_length + piece_length)
                    by (nonlinear_arith);
                lemma_piece_count(full, content@.len(), piece_length as nat);
            } else {
                assert((full + 1) * piece_length == full * piece_length + piece_length)
                    by (nonlinear_arith);
                if end == content.len() {
                    lemma_piece_count(full, content@.len(), piece_length as nat);
                }
            }
            full = full + 1;
            if content.len() - start <= piece_length {
                assert(piece@ =~= rest);
                assert(content@.skip(end as int) =~= Seq::empty());
                assert(done + sha1(rest) =~= pieces@ + Seq::<u8>::empty());
            } else {
                assert(piece@ =~= rest.take(piece_length as int));
                assert(rest.skip(piece_length as int) =~= content@.skip(end as int));
                assert(done + (sha1(piece@) + piece_digests(
                    content@.skip(end as int),
                    piece_length as nat,
                )) =~= pieces@ + piece_digests(content@.skip(end as int), piece_length as nat));
            }
        }
        start = end;
    }
    assert(pieces@ + Seq::<u8>::empty() =~= pieces@);
    pieces
}

/// The info of a torrent that holds the one file `name` with the content
/// `content`: private, in pieces of [`PIECE_LENGTH`] bytes, with 20 bytes of
/// digest for each piece.
pub fn single_file_info(name: Vec<u8>, content: &[u8]) -> (info: Info)
    ensures
        info.pieces@.len() == 20 * piece_count(content@.len(), PIECE_LENGTH as nat),
        info@ == (InfoModel {
            piece_length: PIECE_LENGTH as u64,
            pieces: piece_digests(content@, PIECE_LENGTH as nat),
            private: Some(true),
            file_info: FileInfoModel::Single {
                length: content@.len() as u64,
                md5sum: None,
                name: name@,
            },
        }),
{
    Info {
        piece_length: PIECE_LENGTH as u64,
        pieces: hash_pieces(content, PIECE_LENGTH),
        private: Some(true),
        file_info: FileInfo::Single { length: content.len() as u64, md5sum: None, name },
    }
}

/// The info hash of a torrent: the SHA-1 digest of the wire form of its
/// info dictionary. Nothing where the wire form is too long to hash.
pub fn info_hash(info: &Info) -> (hash: Option<[u8; 20]>)
    ensures
        match hash {
            Some(digest) => digest@ == sha1(encoding(Value::Dict(info_entries(info@))))
                && encoding(Value::Dict(info_entries(info@))).len() < HASH_LIMIT,
            None => encoding(Value::Dict(info_entries(info@))).len() >= HASH_LIMIT,
        },
{
    let wire = encode(info.to_data());
    if wire.len() as u64 >= HASH_LIMIT {
        None
    } else {
        Some(sha1_digest(wire.as_slice()))
    }
}

/// The announce address of the tracker at `host` and `port`.
pub open spec fn announce_address(host: Seq<u8>, port: u16) -> Seq<u8> {
    "http://".spec_bytes() + host + ":".spec_bytes() + decimal(port as nat)
        + "/announce".spec_bytes()
}

/// The announce address of the tracker at `host` and `port`.
pub fn announce_url(host: &[u8], port: u16) -> (url: Vec<u8>)
    ensures
        url@ == announce_address(host@, port),
{
    let mut url: Vec<u8> = Vec::new();
    push_all(&mut url, "http://".as_bytes());
    push_all(&mut url, host);
    push_all(&mut url, ":".as_bytes());
    push_decimal(port as u64, &mut url);
    push_all(&mut url, "/announce".as_bytes());
    assert(url@ =~= announce_address(host@, port));
    url
}

/// The torrent file of `info` for the tracker at `host` and `port`, with
/// nothing but the info and the announce address.
pub fn torrent_for(info: Info, host: &[u8], port: u16) -> (meta: MetaInfo)
    ensures
        meta.info == info,
        meta.announce@ == announce_address(host@, port),
        meta.announce_list is None,
        meta.creation_date is None,
        meta.comment is None,
        meta.created_by is None,
        meta.encoding is None,
{
    MetaInfo {
        info,
        announce: announce_url(host, port),
        announce_list: None,
        creation_date: None,
        comment: None,
        created_by: None,
        encoding: None,
    }
}

} // verus!
