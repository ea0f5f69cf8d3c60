//! The answer to the handshake of a connecting peer.

use vstd::prelude::*;
use vstd::slice::slice_subrange;
use vstd::string::StringSliceAdditionalSpecFns;
use crate::bencode::order::bytes_equal;
use crate::peer::handshake::{frame, Handshake, Protocol};

verus! {

/// What to do with a peer that has sent its handshake.
#[derive(Debug, PartialEq)]
pub enum PeerAction {
    /// Close the connection and say nothing.
    Drop,
    /// Make the address of the peer known, once, and send `reply`.
    RespondAndRegister {
        /// The handshake to send back.
        reply: Vec<u8>,
    },
}

/// The side that peers connect to.
#[derive(Debug, Clone)]
pub struct Peer {
    /// The info hash of the torrent that is served.
    pub info_hash: [u8; 20],
    /// The identifier of this side.
    pub peer_id: [u8; 20],
}

/// The number of bytes of a handshake whose protocol name has `name_length`
/// bytes.
pub open spec fn frame_length(name_length: int) -> int {
    1 + name_length + 8 + 20 + 20
}

/// The info hash that the bytes of a whole handshake carry; nothing where
/// the bytes end before the handshake does.
pub open spec fn received_info_hash(bytes: Seq<u8>) -> Option<Seq<u8>> {
    if bytes.len() >= 1 && bytes.len() >= frame_length(bytes[0] as int) {
        Some(bytes.subrange(1 + bytes[0] + 8, 1 + bytes[0] + 28))
    } else {
        None
    }
}

/// The reserved bytes of a handshake that claims no extension: eight zeros.
pub open spec fn no_claims() -> Seq<u8> {
    Seq::new(8, |i: int| 0u8)
}

/// What this side does with a peer that sent `bytes`: a peer whose handshake
/// is whole and names the torrent that is served is answered and made
/// known; any other is dropped.
pub open spec fn answer(info_hash: Seq<u8>, peer_id: Seq<u8>, bytes: Seq<u8>) -> Option<Seq<u8>> {
    match received_info_hash(bytes) {
        Some(hash) => if hash == info_hash {
            Some(frame("BitTorrent protocol".spec_bytes(), no_claims(), hash, peer_id))
        } else {
            None
        },
        None => None,
    }
}

/// The number of bytes of a handshake whose first byte is `name_length`.
pub fn handshake_length(name_length: u8) -> (length: usize)
    ensures
        length == frame_length(name_length as int),
{
    1 + name_length as usize + 8 + 20 + 20
}

impl Peer {
    /// Decides what to do with a peer that has sent `bytes`.
    pub fn handle_handshake(&self, bytes: &[u8]) -> (action: PeerAction)
        ensures
            match answer(self.info_hash@, self.peer_id@, bytes@) {
                Some(reply) => action matches PeerAction::RespondAndRegister { reply: sent }
                    && sent@ == reply,
                None => action is Drop,
            },
    {
        if bytes.len() < 1 {
            return PeerAction::Drop;
        }
        let name_length = bytes[0] as usize;
        if bytes.len() < handshake_length(bytes[0]) {
            return PeerAction::Drop;
        }
        let received = slice_subrange(bytes, 1 + name_length + 8, 1 + name_length + 28);
        if !bytes_equal(received, self.info_hash.as_slice()) {
            return PeerAction::Drop;
        }
        let handshake = Handshake {
            protocol: Protocol::BITTORRENT,
            reserved: [0u8;8],
            info_hash: self.info_hash,
            peer_id: self.peer_id,
        };
        assert(handshake.reserved@ =~= no_claims());
        PeerAction::RespondAndRegister { reply: handshake.to_bytes() }
    }
}

/// A peer that sends a whole handshake with the info hash of the torrent
/// that is served is answered with a handshake that carries the same info
/// hash and the peer id of this side, and is made known, in one action.
pub proof fn lemma_handshake_answered(
    info_hash: Seq<u8>,
    peer_id: Seq<u8>,
    protocol: Seq<u8>,
    reserved: Seq<u8>,
    remote_id: Seq<u8>,
)
    requires
        info_hash.len() == 20,
        protocol.len() <= 255,
        reserved.len() == 8,
        remote_id.len() == 20,
    ensures
        answer(info_hash, peer_id, frame(protocol, reserved, info_hash, remote_id)) == Some(
            frame("BitTorrent protocol".spec_bytes(), no_claims(), info_hash, peer_id),
        ),
{
    let bytes = frame(protocol, reserved, info_hash, remote_id);
    assert(bytes[0] == protocol.len() as u8);
    assert(bytes.subrange(1 + bytes[0] + 8, 1 + bytes[0] + 28) =~= info_hash);
}

/// A peer whose handshake names another torrent is dropped.
pub proof fn lemma_handshake_refused(
    info_hash: Seq<u8>,
    peer_id: Seq<u8>,
    protocol: Seq<u8>,
    reserved: Seq<u8>,
    other_hash: Seq<u8>,
    remote_id: Seq<u8>,
)
    requires
        other_hash.len() == 20,
        other_hash != info_hash,
        protocol.len() <= 255,
        reserved.len() == 8,
    ensures
        answer(info_hash, peer_id, frame(protocol, reserved, other_hash, remote_id)) == None::<
            Seq<u8>,
        >,
{
    let bytes = frame(protocol, reserved, other_hash, remote_id);
    assert(bytes[0] == protocol.len() as u8);
    if bytes.len() >= frame_length(bytes[0] as int) {
        assert(bytes.subrange(1 + bytes[0] + 8, 1 + bytes[0] + 28) =~= other_hash);
    }
}

/// How far the handshake of a connecting peer has been read.
#[derive(Debug, PartialEq, Eq, Clone, Copy)]
pub enum PeerState {
    /// Nothing has been read yet.
    AwaitLength,
    /// The length of the protocol name has been read; the name, the reserved
    /// bytes and the info hash are awaited.
    AwaitHead {
        /// The length of the protocol name.
        name_length: u8,
    },
    /// The info hash has been found to be that of the torrent that is
    /// served; the peer id is awaited.
    AwaitPeerId,
    /// The peer has been dropped or answered.
    Closed,
}

/// What to do next with a connecting peer.
#[derive(Debug, PartialEq)]
pub enum PeerStep {
    /// Read exactly `count` bytes and hand them on; where they do not come,
    /// say so.
    Read {
        /// The number of bytes to read.
        count: usize,
    },
    /// Close the connection and say nothing.
    Drop,
    /// Make the address of the peer known, once, and send `reply`.
    RespondAndRegister {
        /// The handshake to send back.
        reply: Vec<u8>,
    },
}

/// The mathematical model of a [`PeerStep`].
pub enum PeerStepModel {
    Read { count: nat },
    Drop,
    RespondAndRegister { reply: Seq<u8> },
}

impl View for PeerStep {
    type V = PeerStepModel;

    open spec fn view(&self) -> PeerStepModel {
        match self {
            PeerStep::Read { count } => PeerStepModel::Read { count: *count as nat },
            PeerStep::Drop => PeerStepModel::Drop,
            PeerStep::RespondAndRegister { reply } => PeerStepModel::RespondAndRegister {
                reply: reply@,
            },
        }
    }
}

/// The state and the step that follow when, in the state `state`, the bytes
/// `received` have come, or none have where `received` is nothing.
///
/// First one byte is read, the length of the protocol name; then the name,
/// the reserved bytes and the info hash. A peer that names another torrent
/// is dropped there. Of any other the peer id is read, and then it is
/// answered and made known. A read that does not bring what was asked for
/// drops the peer.
pub open spec fn stepped(
    info_hash: Seq<u8>,
    peer_id: Seq<u8>,
    state: PeerState,
    received: Option<Seq<u8>>,
) -> (PeerState, PeerStepModel) {
    match (state, received) {
        (PeerState::AwaitLength, Some(bytes)) => if bytes.len() == 1 {
            (
                PeerState::AwaitHead { name_length: bytes[0] },
                PeerStepModel::Read { count: (bytes[0] + 28) as nat },
            )
        } else {
            (PeerState::Closed, PeerStepModel::Drop)
        },
        (PeerState::AwaitHead { name_length }, Some(bytes)) => if bytes.len() == name_length + 28
            && bytes.skip(name_length + 8) == info_hash {
            (PeerState::AwaitPeerId, PeerStepModel::Read { count: 20 })
        } else {
            (PeerState::Closed, PeerStepModel::Drop)
        },
        (PeerState::AwaitPeerId, Some(bytes)) => if bytes.len() == 20 {
            (
                PeerState::Closed,
                PeerStepModel::RespondAndRegister {
                    reply: frame(
                        "BitTorrent protocol".spec_bytes(),
                        no_claims(),
                        info_hash,
                        peer_id,
                    ),
                },
            )
        } else {
            (PeerState::Closed, PeerStepModel::Drop)
        },
        _ => (PeerState::Closed, PeerStepModel::Drop),
    }
}

impl Peer {
    /// The state and the step that a connection begins with.
    pub fn start() -> (begin: (PeerState, PeerStep))
        ensures
            begin.0 == PeerState::AwaitLength,
            begin.1@ == (PeerStepModel::Read { count: 1 }),
    {
        (PeerState::AwaitLength, PeerStep::Read { count: 1 })
    }

    /// The state and the step that follow when, in the state `state`, the
    /// bytes `received` have come, or none have.
    pub fn step(&self, state: PeerState, received: Option<&[u8]>) -> (next: (PeerState, PeerStep))
        ensures
            (next.0, next.1@) == stepped(
                self.info_hash@,
                self.peer_id@,
                state,
                match received {
                    Some(bytes) => Some(bytes@),
                    None => None,
                },
            ),
    {
        let bytes = match received {
            Some(bytes) => bytes,
            None => {
                return (PeerState::Closed, PeerStep::Drop);
            },
        };
        match state {
            PeerState::AwaitLength => {
                if bytes.len() == 1 {
                    (
                        PeerState::AwaitHead { name_length: bytes[0] },
                        PeerStep::Read { count: bytes[0] as usize + 28 },
                    )
                } else {
                    (PeerState::Closed, PeerStep::Drop)
                }
            },
            PeerState::AwaitHead { name_length } => {
                let head = name_length as usize + 8;
                if bytes.len() != head + 20 {
                    return (PeerState::Closed, PeerStep::Drop);
                }
                let received_hash = slice_subrange(bytes, head, bytes.len());
                assert(received_hash@ =~= bytes@.skip(name_length + 8));
                if bytes_equal(received_hash, self.info_hash.as_slice()) {
                    (PeerState::AwaitPeerId, PeerStep::Read { count: 20 })
                } else {
                    (PeerState::Closed, PeerStep::Drop)
                }
            },
            PeerState::AwaitPeerId => {
                if bytes.len() == 20 {
                    let handshake = Handshake {
                        protocol: Protocol::BITTORRENT,
                        reserved: [0u8;8],
                        info_hash: self.info_hash,
                        peer_id: self.peer_id,
                    };
                    assert(handshake.reserved@ =~= no_claims());
                    let reply = handshake.to_bytes();
                    (PeerState::Closed, PeerStep::RespondAndRegister { reply })
                } else {
                    (PeerState::Closed, PeerStep::Drop)
                }
            },
            PeerState::Closed => (PeerState::Closed, PeerStep::Drop),
        }
    }
}

/// Reading a whole handshake step by step ends as looking at it in one
/// piece does: the peer is answered, with the same reply, or dropped.
pub proof fn lemma_steps_agree(
    info_hash: Seq<u8>,
    peer_id: Seq<u8>,
    length: Seq<u8>,
    head: Seq<u8>,
    remote_id: Seq<u8>,
)
    requires
        info_hash.len() == 20,
        length.len() == 1,
        head.len() == length[0] + 28,
        remote_id.len() == 20,
    ensures
        ({
            let first = stepped(info_hash, peer_id, PeerState::AwaitLength, Some(length));
            let second = stepped(info_hash, peer_id, first.0, Some(head));
            let third = stepped(info_hash, peer_id, second.0, Some(remote_id));
            match answer(info_hash, peer_id, length + head + remote_id) {
                Some(reply) => third.1 == (PeerStepModel::RespondAndRegister { reply }),
                None => second.1 == PeerStepModel::Drop,
            }
        }),
{
    let bytes = length + head + remote_id;
    assert(bytes[0] == length[0]);
    assert(bytes.subrange(1 + bytes[0] + 8, 1 + bytes[0] + 28) =~= head.skip(length[0] + 8));
}

/// A peer is made known at most once: the step that makes it known closes
/// the connection, and a closed connection only drops.
pub proof fn lemma_known_once(
    info_hash: Seq<u8>,
    peer_id: Seq<u8>,
    state: PeerState,
    received: Option<Seq<u8>>,
    later: Option<Seq<u8>>,
)
    ensures
        stepped(info_hash, peer_id, state, received).1 is RespondAndRegister ==> stepped(
            info_hash,
            peer_id,
            state,
            received,
        ).0 == PeerState::Closed,
        stepped(info_hash, peer_id, PeerState::Closed, later) == (
            PeerState::Closed,
            PeerStepModel::Drop,
        ),
{
}

} // verus!
