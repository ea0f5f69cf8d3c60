//! The answer of the tracker to what a client sent.

use vstd::prelude::*;
use vstd::slice::slice_subrange;
use vstd::string::StringSliceAdditionalSpecFns;
use vstd::utf8::valid_utf8;
use crate::bencode::encode::{encode, push_decimal};
use crate::bencode::order::bytes_equal;
use crate::bencode::value::{decimal, encoding, Value};
use crate::bytes::{is_utf8, push_all};
use crate::tracker::query_string::{decode_bytes, position, position_of, query_entries};
use crate::tracker::tracker_request::{request_from, TrackerRequest, TrackerRequestModel};
use crate::tracker::tracker_response::{
    packed_peer, packed_peers, peers_view, response_entries, Ip, IpModel, Peer, PeerModel, Peers,
    PeersModel, TrackerResponse, TrackerResponseModel,
};

verus! {

/// The space that ends the query of a request line.
pub const SPACE: u8 = 32;

/// What the tracker answers with, and whether it has seen a peer.
#[derive(Debug, PartialEq)]
pub struct Reply {
    /// The bytes to send back.
    pub response: Vec<u8>,
    /// Whether the address of the client is to be made known.
    pub publish: bool,
}

/// The tracker of one torrent.
#[derive(Debug, Clone)]
pub struct Server {
    /// The info hash of the torrent.
    pub info_hash: [u8; 20],
    /// The identifier of the peer that the tracker hands out.
    pub peer_id: [u8; 20],
    /// The port that the peer of the tracker listens on.
    pub peer_port: u16,
}

/// The mathematical model of a [`Server`].
pub struct ServerModel {
    pub info_hash: Seq<u8>,
    pub peer_id: Seq<u8>,
    pub peer_port: u16,
}

impl View for Server {
    type V = ServerModel;

    open spec fn view(&self) -> ServerModel {
        ServerModel {
            info_hash: self.info_hash@,
            peer_id: self.peer_id@,
            peer_port: self.peer_port,
        }
    }
}

/// `s` begins with `prefix`.
pub open spec fn starts_with(s: Seq<u8>, prefix: Seq<u8>) -> bool {
    s.len() >= prefix.len() && s.take(prefix.len() as int) == prefix
}

/// The query of an announce request: what stands between `GET /announce?`
/// at the very start of the request and the next space. Nothing where the
/// request is not well-formed UTF-8, does not start so, or has no space
/// behind the query.
pub open spec fn request_query(request: Seq<u8>) -> Option<Seq<u8>> {
    let prefix = "GET /announce?".spec_bytes();
    if valid_utf8(request) && starts_with(request, prefix) {
        let path = request.skip(prefix.len() as int);
        let end = position(path, SPACE);
        if end < path.len() {
            Some(path.take(end as int))
        } else {
            None
        }
    } else {
        None
    }
}

/// The announce request that the bytes of a request hold, if they hold one.
pub open spec fn announce_of(request: Seq<u8>) -> Option<TrackerRequestModel> {
    match request_query(request) {
        Some(query) => match query_entries(query, Seq::empty()) {
            Some(pairs) => request_from(pairs),
            None => None,
        },
        None => None,
    }
}

/// The response to an announce for the torrent of the tracker: one peer, at
/// the address `advertised`, packed where the client asked for that and the
/// address is an IPv4 address; and, as a warning message, the address that
/// the client was seen at.
pub open spec fn welcome(
    server: ServerModel,
    compact: Option<bool>,
    advertised: IpModel,
    remote: Seq<u8>,
) -> TrackerResponseModel {
    TrackerResponseModel::Success {
        interval: 300,
        min_interval: None,
        tracker_id: None,
        complete: 1,
        incomplete: 0,
        peers: match (compact, advertised) {
            (Some(true), IpModel::V4(octets)) => PeersModel::Compact(
                seq![packed_peer(octets, server.peer_port)],
            ),
            _ => PeersModel::Full(
                seq![
                    PeerModel { peer_id: server.peer_id, ip: advertised, port: server.peer_port },
                ],
            ),
        },
        warning_message: Some("Your IP is ".spec_bytes() + remote),
    }
}

/// The response that carries `body`: the status line, the length of the
/// body, its type, an empty line, the body and a line end.
pub open spec fn http_ok(body: Seq<u8>) -> Seq<u8> {
    "HTTP/1.1 200 OK\r\nContent-Length: ".spec_bytes() + decimal(body.len())
        + "\r\nContent-Type: text/plain\r\n\r\n".spec_bytes() + body + "\r\n".spec_bytes()
}

/// What the tracker answers to the bytes `request`, and whether it makes the
/// client known.
///
/// Bytes that hold no announce request get the bad-request response. An
/// announce for another torrent gets a failure as its body, and the client
/// is not made known. An announce for the torrent of the tracker gets the
/// response of [`welcome`] as its body, and the client is made known.
pub open spec fn reply_to(
    server: ServerModel,
    request: Seq<u8>,
    advertised: IpModel,
    remote: Seq<u8>,
) -> (Seq<u8>, bool) {
    match announce_of(request) {
        None => ("HTTP/1.1 400 BAD REQUEST\r\n\r\n".spec_bytes(), false),
        Some(announce) => if announce.info_hash == server.info_hash {
            (
                http_ok(
                    encoding(
                        Value::Dict(
                            response_entries(
                                welcome(server, announce.compact, advertised, remote),
                            ),
                        ),
                    ),
                ),
                true,
            )
        } else {
            (
                http_ok(
                    encoding(
                        Value::Dict(
                            response_entries(
                                TrackerResponseModel::Failure("Invalid info hash.".spec_bytes()),
                            ),
                        ),
                    ),
                ),
                false,
            )
        },
    }
}

/// An announce for another torrent than that of the tracker is answered, in
/// a response with the status 200, with a dictionary that holds nothing but
/// the failure reason `Invalid info hash.`, and the client is not made known.
pub proof fn lemma_other_torrent_refused(
    server: ServerModel,
    request: Seq<u8>,
    advertised: IpModel,
    remote: Seq<u8>,
)
    requires
        announce_of(request) matches Some(announce) && announce.info_hash != server.info_hash,
    ensures
        reply_to(server, request, advertised, remote) == (
            http_ok(
                encoding(
                    Value::Dict(
                        seq![
                            (
                                "failure reason".spec_bytes(),
                                Value::Bytes("Invalid info hash.".spec_bytes()),
                            ),
                        ],
                    ),
                ),
            ),
            false,
        ),
{
}

/// An announce for the torrent of the tracker makes the client known.
pub proof fn lemma_own_torrent_published(
    server: ServerModel,
    request: Seq<u8>,
    advertised: IpModel,
    remote: Seq<u8>,
)
    requires
        announce_of(request) matches Some(announce) && announce.info_hash == server.info_hash,
    ensures
        reply_to(server, request, advertised, remote).1,
{
}

/// The response that tells the client that its request was not understood.
pub fn bad_request() -> (response: Vec<u8>)
    ensures
        response@ == "HTTP/1.1 400 BAD REQUEST\r\n\r\n".spec_bytes(),
{
    let mut response: Vec<u8> = Vec::new();
    push_all(&mut response, "HTTP/1.1 400 BAD REQUEST\r\n\r\n".as_bytes());
    assert(response@ =~= "HTTP/1.1 400 BAD REQUEST\r\n\r\n".spec_bytes());
    response
}

/// The response that tells the client that the tracker failed.
pub fn internal_error() -> (response: Vec<u8>)
    ensures
        response@ == "HTTP/1.1 500 INTERNAL SERVER ERROR\r\n\r\n".spec_bytes(),
{
    let mut response: Vec<u8> = Vec::new();
    push_all(&mut response, "HTTP/1.1 500 INTERNAL SERVER ERROR\r\n\r\n".as_bytes());
    assert(response@ =~= "HTTP/1.1 500 INTERNAL SERVER ERROR\r\n\r\n".spec_bytes());
    response
}

/// The response that carries `body`.
pub fn ok_response(body: &[u8]) -> (response: Vec<u8>)
    ensures
        response@ == http_ok(body@),
{
    let mut response: Vec<u8> = Vec::new();
    push_all(&mut response, "HTTP/1.1 200 OK\r\nContent-Length: ".as_bytes());
    push_decimal(body.len() as u64, &mut response);
    push_all(&mut response, "\r\nContent-Type: text/plain\r\n\r\n".as_bytes());
    push_all(&mut response, body);
    push_all(&mut response, "\r\n".as_bytes());
    assert(response@ =~= http_ok(body@));
    response
}

/// The query of an announce request, if `request` holds one.
pub fn query_of(request: &[u8]) -> (query: Option<&[u8]>)
    ensures
        match request_query(request@) {
            Some(q) => query matches Some(found) && found@ == q,
            None => query is None,
        },
{
    if !is_utf8(request) {
        return None;
    }
    let prefix = "GET /announce?".as_bytes();
    if request.len() < prefix.len() {
        return None;
    }
    let head = slice_subrange(request, 0, prefix.len());
    assert(head@ =~= request@.take(prefix@.len() as int));
    if !bytes_equal(head, prefix) {
        return None;
    }
    let path = slice_subrange(request, prefix.len(), request.len());
    assert(path@ =~= request@.skip(prefix@.len() as int));
    let end = position_of(path, SPACE);
    if end >= path.len() {
        return None;
    }
    let query = slice_subrange(path, 0, end);
    assert(query@ =~= path@.take(end as int));
    Some(query)
}

impl Server {
    /// The response to an announce for the torrent of the tracker.
    pub fn welcome(&self, compact: Option<bool>, advertised: &Ip, remote: &[u8]) -> (response:
        TrackerResponse)
        ensures
            response@ == welcome(self@, compact, advertised@, remote@),
    {
        let peers = match (compact, advertised) {
            (Some(true), Ip::V4(octets)) => {
                let mut addrs: Vec<([u8; 4], u16)> = Vec::new();
                addrs.push((*octets, self.peer_port));
                assert(packed_peers(addrs@) =~= seq![packed_peer(octets@, self.peer_port)]);
                Peers::create_compact(addrs)
            },
            _ => {
                let mut list: Vec<Peer> = Vec::new();
                let peer = Peer {
                    peer_id: self.peer_id,
                    ip: advertised.copy(),
                    port: self.peer_port,
                };
                list.push(peer);
                assert(peers_view(list@) =~= seq![
                    PeerModel {
                        peer_id: self.peer_id@,
                        ip: advertised@,
                        port: self.peer_port,
                    },
                ]);
                Peers::Full(list)
            },
        };
        let mut message: Vec<u8> = Vec::new();
        push_all(&mut message, "Your IP is ".as_bytes());
        push_all(&mut message, remote);
        assert(message@ =~= "Your IP is ".spec_bytes() + remote@);
        TrackerResponse::Success {
            interval: 300,
            min_interval: None,
            tracker_id: None,
            complete: 1,
            incomplete: 0,
            peers,
            warning_message: Some(message),
        }
    }

    /// The announce request that `request` holds, if it holds one.
    pub fn read_announce(request: &[u8]) -> (announce: Option<TrackerRequest>)
        ensures
            match announce_of(request@) {
                Some(model) => announce matches Some(found) && found@ == model,
                None => announce is None,
            },
    {
        let query = match query_of(request) {
            Some(query) => query,
            None => {
                return None;
            },
        };
        let pairs = match decode_bytes(query) {
            Ok(pairs) => pairs,
            Err(_) => {
                return None;
            },
        };
        match TrackerRequest::from_query(pairs) {
            Ok(announce) => Some(announce),
            Err(_) => None,
        }
    }

    /// Answers what a client sent. `advertised` is the address that the
    /// tracker hands out for its peer, and `remote` the text form of the
    /// address that the client was seen at.
    pub fn handle_request(&self, request: &[u8], advertised: &Ip, remote: &[u8]) -> (reply: Reply)
        ensures
            (reply.response@, reply.publish) == reply_to(self@, request@, advertised@, remote@),
    {
        let announce = match Server::read_announce(request) {
            Some(announce) => announce,
            None => {
                return Reply { response: bad_request(), publish: false };
            },
        };
        if bytes_equal(self.info_hash.as_slice(), announce.info_hash.as_slice()) {
            let response = self.welcome(announce.compact, advertised, remote);
            let body = encode(response.to_data());
            Reply { response: ok_response(body.as_slice()), publish: true }
        } else {
            let response = TrackerResponse::Failure("Invalid info hash.");
            let body = encode(response.to_data());
            Reply { response: ok_response(body.as_slice()), publish: false }
        }
    }
}

} // verus!
