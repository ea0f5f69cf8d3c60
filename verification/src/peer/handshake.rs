//! The handshake of the peer wire protocol.

use vstd::prelude::*;
use vstd::string::{is_ascii, is_ascii_spec_bytes, StringSliceAdditionalSpecFns};
use crate::bencode::encode::push_decimal;
use crate::bencode::value::decimal;
use crate::bytes::push_all;

verus! {

/// The protocol that a handshake names.
#[allow(non_camel_case_types)]
#[derive(Debug, Clone, Copy, PartialEq, Eq, Structural)]
pub enum Protocol {
    /// The BitTorrent peer wire protocol.
    BITTORRENT,
}

/// The name of the BitTorrent protocol has 19 bytes.
pub proof fn lemma_protocol_name()
    ensures
        "BitTorrent protocol".spec_bytes().len() == 19,
{
    reveal_strlit("BitTorrent protocol");
    assert(is_ascii("BitTorrent protocol"));
    is_ascii_spec_bytes("BitTorrent protocol");
}

impl Protocol {
    /// The name of the protocol as it stands in a handshake.
    pub fn name(self) -> (name: &'static str)
        ensures
            name == "BitTorrent protocol",
    {
        match self {
            Protocol::BITTORRENT => "BitTorrent protocol",
        }
    }
}

/// A handshake as this side sends it.
#[derive(Debug, Clone, PartialEq)]
pub struct Handshake {
    /// The protocol.
    pub protocol: Protocol,
    /// Eight bytes for extensions; zero when nothing is claimed.
    pub reserved: [u8; 8],
    /// The info hash of the torrent.
    pub info_hash: [u8; 20],
    /// The identifier of the sender.
    pub peer_id: [u8; 20],
}

/// The bytes of a handshake: the length of the protocol name in one byte,
/// the name, the reserved bytes, the info hash and the peer id.
pub open spec fn frame(
    protocol: Seq<u8>,
    reserved: Seq<u8>,
    info_hash: Seq<u8>,
    peer_id: Seq<u8>,
) -> Seq<u8> {
    seq![protocol.len() as u8] + protocol + reserved + info_hash + peer_id
}

impl Handshake {
    /// The bytes of the handshake on the wire.
    pub open spec fn wire(&self) -> Seq<u8> {
        frame(
            "BitTorrent protocol".spec_bytes(),
            self.reserved@,
            self.info_hash@,
            self.peer_id@,
        )
    }

    /// The bytes of the handshake on the wire.
    pub fn to_bytes(&self) -> (bytes: Vec<u8>)
        ensures
            bytes@ == self.wire(),
            bytes@.len() == 68,
    {
        proof {
            lemma_protocol_name();
        }
        let name = self.protocol.name().as_bytes();
        let mut bytes: Vec<u8> = Vec::new();
        bytes.push(name.len() as u8);
        push_all(&mut bytes, name);
        push_all(&mut bytes, self.reserved.as_slice());
        push_all(&mut bytes, self.info_hash.as_slice());
        push_all(&mut bytes, self.peer_id.as_slice());
        assert(bytes@ =~= self.wire());
        bytes
    }
}

/// `text` with `part` appended until it has 20 bytes or more.
pub open spec fn filled(text: Seq<u8>, part: Seq<u8>) -> Seq<u8>
    decreases
            (if text.len() < 20 {
                20 - text.len()
            } else {
                0
            }),
{
    if text.len() >= 20 || part.len() == 0 {
        text
    } else {
        proof {
            assert((text + part).len() == text.len() + part.len());
        }
        filled(text + part, part)
    }
}

/// The peer id of the process with the number `pid`: the client tag `-PA`,
/// the version bytes 0, 0, 1, 0, and the decimal digits of `pid` again and
/// again, cut off after 20 bytes.
pub open spec fn peer_id_bytes(pid: u32) -> Seq<u8> {
    filled(seq![45u8, 80, 65, 0, 0, 1, 0], decimal(pid as nat)).take(20)
}

/// The decimal text of a number is not empty.
proof fn lemma_decimal_not_empty(n: nat)
    ensures
        decimal(n).len() >= 1,
    decreases n,
{
    if n >= 10 {
        lemma_decimal_not_empty(n / 10);
    }
}

/// The peer id of the process with the number `pid`.
pub fn peer_id(pid: u32) -> (id: [u8; 20])
    ensures
        id@ == peer_id_bytes(pid),
{
    let mut digits: Vec<u8> = Vec::new();
    push_decimal(pid as u64, &mut digits);
    assert(digits@ =~= decimal(pid as nat));
    proof {
        lemma_decimal_not_empty(pid as nat);
    }
    let mut text: Vec<u8> = Vec::new();
    text.push(45);
    text.push(80);
    text.push(65);
    text.push(0);
    text.push(0);
    text.push(1);
    text.push(0);
    assert(text@ =~= seq![45u8, 80, 65, 0, 0, 1, 0]);
    while text.len() < 20
        invariant
            digits@ == decimal(pid as nat),
            digits@.len() >= 1,
            filled(text@, digits@) == filled(seq![45u8, 80, 65, 0, 0, 1, 0], decimal(pid as nat)),
        decreases
                (if text.len() < 20 {
                    20 - text.len()
                } else {
                    0
                }),
    {
        let ghost before = text@;
        push_all(&mut text, digits.as_slice());
        assert(text@.len() == before.len() + digits@.len());
    }
    let mut id = [0u8;20];
    let mut i: usize = 0;
    while i < 20
        invariant
            i <= 20,
            text@.len() >= 20,
            forall|k: int| 0 <= k < i ==> id@[k] == text@[k],
        decreases 20 - i,
    {
        id[i] = text[i];
        i += 1;
    }
    assert(id@ =~= text@.take(20));
    id
}

} // verus!
