//! The response of the tracker to an announce request.

use vstd::prelude::*;
use vstd::slice::slice_to_vec;
use vstd::std_specs::cmp::PartialEqSpecImpl;
use vstd::string::StringSliceAdditionalSpecFns;
use crate::bencode::data::{list_view, Data};
use crate::bencode::dictionary::Dictionary;
use crate::bencode::entries::all_complete;
use crate::bencode::encode::push_decimal;
use crate::bencode::order::bytes_equal;
use crate::bencode::value::{decimal, with_entry, Value};
use crate::bytes::push_all;

verus! {

/// The address under which a peer is reached.
#[derive(Clone, Debug)]
pub enum Ip {
    /// An IPv4 address by its four octets.
    V4([u8; 4]),
    /// Any other address, or a host name, in its text form.
    Text(Vec<u8>),
}

/// The mathematical model of an [`Ip`].
pub enum IpModel {
    V4(Seq<u8>),
    Text(Seq<u8>),
}

impl View for Ip {
    type V = IpModel;

    open spec fn view(&self) -> IpModel {
        match self {
            Ip::V4(octets) => IpModel::V4(octets@),
            Ip::Text(text) => IpModel::Text(text@),
        }
    }
}

impl PartialEq for Ip {
    fn eq(&self, other: &Ip) -> (same: bool) {
        match (self, other) {
            (Ip::V4(a), Ip::V4(b)) => bytes_equal(a.as_slice(), b.as_slice()),
            (Ip::Text(a), Ip::Text(b)) => bytes_equal(a.as_slice(), b.as_slice()),
            _ => false,
        }
    }
}

impl PartialEqSpecImpl for Ip {
    open spec fn obeys_eq_spec() -> bool {
        true
    }

    open spec fn eq_spec(&self, other: &Ip) -> bool {
        self@ == other@
    }
}

/// The text form of an address: the four octets of an IPv4 address in
/// decimal with dots between them; any other address as it stands.
pub open spec fn ip_text(ip: IpModel) -> Seq<u8> {
    match ip {
        IpModel::V4(o) => decimal(o[0] as nat) + seq![46u8] + decimal(o[1] as nat) + seq![46u8]
            + decimal(o[2] as nat) + seq![46u8] + decimal(o[3] as nat),
        IpModel::Text(text) => text,
    }
}

impl Ip {
    /// A copy of the address.
    pub fn copy(&self) -> (copy: Ip)
        ensures
            copy@ == self@,
    {
        match self {
            Ip::V4(octets) => Ip::V4(*octets),
            Ip::Text(text) => Ip::Text(slice_to_vec(text.as_slice())),
        }
    }

    /// The text form of the address.
    pub fn to_text(&self) -> (text: Vec<u8>)
        ensures
            text@ == ip_text(self@),
    {
        match self {
            Ip::V4(octets) => {
                let mut text: Vec<u8> = Vec::new();
                push_decimal(octets[0] as u64, &mut text);
                text.push(46);
                push_decimal(octets[1] as u64, &mut text);
                text.push(46);
                push_decimal(octets[2] as u64, &mut text);
                text.push(46);
                push_decimal(octets[3] as u64, &mut text);
                assert(text@ =~= ip_text(self@));
                text
            },
            Ip::Text(text) => slice_to_vec(text.as_slice()),
        }
    }
}

/// A peer as the tracker hands it out.
#[derive(Clone, Debug, PartialEq)]
pub struct Peer {
    /// The identifier of the peer.
    pub peer_id: [u8; 20],
    /// The address of the peer.
    pub ip: Ip,
    /// The port that the peer listens on.
    pub port: u16,
}

/// The mathematical model of a [`Peer`].
pub struct PeerModel {
    pub peer_id: Seq<u8>,
    pub ip: IpModel,
    pub port: u16,
}

impl View for Peer {
    type V = PeerModel;

    open spec fn view(&self) -> PeerModel {
        PeerModel { peer_id: self.peer_id@, ip: self.ip@, port: self.port }
    }
}

/// The dictionary of a peer: `peer id`, `ip` as text, and `port`.
pub open spec fn peer_entries(peer: PeerModel) -> Seq<(Seq<u8>, Value)> {
    with_entry(
        with_entry(
            with_entry(Seq::empty(), "peer id".spec_bytes(), Value::Bytes(peer.peer_id)),
            "ip".spec_bytes(),
            Value::Bytes(ip_text(peer.ip)),
        ),
        "port".spec_bytes(),
        Value::Int(peer.port as int),
    )
}

impl Peer {
    /// The dictionary that describes the peer.
    pub fn to_dictionary(&self) -> (dict: Dictionary)
        ensures
            dict@ == peer_entries(self@),
            dict.wf(),
            all_complete(dict@),
    {
        let mut dict = Dictionary::new();
        dict.insert_str("peer id", Data::Bytes(slice_to_vec(self.peer_id.as_slice())));
        dict.insert_str("ip", Data::Bytes(self.ip.to_text()));
        dict.insert_str("port", Data::UInt(self.port as u64));
        dict
    }
}

/// The peers of a response.
#[derive(Clone, Debug, PartialEq)]
pub enum Peers {
    /// Each peer with its identifier, address and port.
    Full(Vec<Peer>),
    /// Each peer packed into six bytes: the four octets of its IPv4 address,
    /// then its port with the high byte first.
    Compact(Vec<[u8; 6]>),
}

/// The mathematical model of [`Peers`].
pub enum PeersModel {
    Full(Seq<PeerModel>),
    Compact(Seq<Seq<u8>>),
}

/// The models of a vector of peers.
pub open spec fn peers_view(peers: Seq<Peer>) -> Seq<PeerModel> {
    Seq::new(peers.len(), |i: int| peers[i]@)
}

/// The bytes of a vector of packed peers.
pub open spec fn packed_view(packed: Seq<[u8; 6]>) -> Seq<Seq<u8>> {
    Seq::new(packed.len(), |i: int| packed[i]@)
}

impl View for Peers {
    type V = PeersModel;

    open spec fn view(&self) -> PeersModel {
        match self {
            Peers::Full(peers) => PeersModel::Full(peers_view(peers@)),
            Peers::Compact(packed) => PeersModel::Compact(packed_view(packed@)),
        }
    }
}

/// The dictionaries of a list of peers.
pub open spec fn peer_values(peers: Seq<PeerModel>) -> Seq<Value> {
    Seq::new(peers.len(), |i: int| Value::Dict(peer_entries(peers[i])))
}

/// Byte strings one after the other.
pub open spec fn flattened(parts: Seq<Seq<u8>>) -> Seq<u8>
    decreases parts.len(),
{
    if parts.len() == 0 {
        Seq::empty()
    } else {
        flattened(parts.drop_last()) + parts.last()
    }
}

/// The value of the peers of a response: a list of dictionaries, or one
/// byte string of packed peers.
pub open spec fn peers_value(peers: PeersModel) -> Value {
    match peers {
        PeersModel::Full(list) => Value::List(peer_values(list)),
        PeersModel::Compact(packed) => Value::Bytes(flattened(packed)),
    }
}

/// One peer in packed form: the octets of the address, then the port with
/// its high byte first.
pub open spec fn packed_peer(octets: Seq<u8>, port: u16) -> Seq<u8> {
    seq![octets[0], octets[1], octets[2], octets[3], (port / 256) as u8, (port % 256) as u8]
}

/// The packed forms of addresses with their ports.
pub open spec fn packed_peers(addrs: Seq<([u8; 4], u16)>) -> Seq<Seq<u8>> {
    Seq::new(addrs.len(), |i: int| packed_peer(addrs[i].0@, addrs[i].1))
}

impl Peers {
    /// The packed peers of the given IPv4 addresses and ports.
    pub fn create_compact(addrs: Vec<([u8; 4], u16)>) -> (peers: Peers)
        ensures
            peers@ == PeersModel::Compact(packed_peers(addrs@)),
    {
        let mut packed: Vec<[u8; 6]> = Vec::new();
        let mut i: usize = 0;
        while i < addrs.len()
            invariant
                i <= addrs.len(),
                packed.len() == i,
                forall|k: int|
                    0 <= k < i ==> (#[trigger] packed@[k])@ == packed_peer(
                        addrs@[k].0@,
                        addrs@[k].1,
                    ),
            decreases addrs.len() - i,
        {
            let ip = addrs[i].0;
            let port = addrs[i].1;
            let entry = [ip[0], ip[1], ip[2], ip[3], (port / 256) as u8, (port % 256) as u8];
            assert(entry@ =~= packed_peer(addrs@[i as int].0@, addrs@[i as int].1));
            packed.push(entry);
            i += 1;
        }
        let peers = Peers::Compact(packed);
        assert(packed_view(packed@) =~= packed_peers(addrs@));
        peers
    }

    /// The bencode value of the peers.
    pub fn to_data(&self) -> (data: Data)
        ensures
            data@ == peers_value(self@),
            data.wf(),
            data@.complete(),
    {
        match self {
            Peers::Full(peers) => {
                let mut list: Vec<Data> = Vec::new();
                let mut i: usize = 0;
                while i < peers.len()
                    invariant
                        i <= peers.len(),
                        list.len() == i,
                        forall|k: int|
                            0 <= k < i ==> (#[trigger] list@[k])@ == Value::Dict(
                                peer_entries(peers@[k]@),
                            ) && list@[k].wf() && list@[k]@.complete(),
                    decreases peers.len() - i,
                {
                    list.push(Data::Dict(peers[i].to_dictionary()));
                    i += 1;
                }
                assert(list_view(list@) =~= peer_values(peers_view(peers@)));
                assert forall|k: int| 0 <= k < list_view(list@).len() implies (
                #[trigger] list_view(list@)[k]).canonical() && list_view(list@)[k].complete() by {
                    assert(list_view(list@)[k] == list@[k]@);
                }
                Data::List(list)
            },
            Peers::Compact(packed) => {
                let mut bytes: Vec<u8> = Vec::new();
                let mut i: usize = 0;
                assert(packed_view(packed@).take(0) =~= Seq::empty());
                while i < packed.len()
                    invariant
                        i <= packed.len(),
                        bytes@ == flattened(packed_view(packed@).take(i as int)),
                    decreases packed.len() - i,
                {
                    let ghost parts = packed_view(packed@);
                    assert(parts.take(i + 1).drop_last() =~= parts.take(i as int));
                    assert(parts.take(i + 1).last() == packed@[i as int]@);
                    push_all(&mut bytes, packed[i].as_slice());
                    i += 1;
                }
                assert(packed_view(packed@).take(i as int) =~= packed_view(packed@));
                Data::Bytes(bytes)
            },
        }
    }
}

/// The response to an announce request.
#[derive(Clone, Debug, PartialEq)]
pub enum TrackerResponse {
    /// The tracker took the request.
    Success {
        /// The seconds that the client should let pass between requests.
        interval: u64,
        /// The least seconds that must pass between requests.
        min_interval: Option<u64>,
        /// A text that the client should send back with later requests.
        tracker_id: Option<Vec<u8>>,
        /// The number of peers that have the whole content.
        complete: u64,
        /// The number of peers that do not have the whole content yet.
        incomplete: u64,
        /// The peers.
        peers: Peers,
        /// A remark that does not make the response a failure.
        warning_message: Option<Vec<u8>>,
    },
    /// The tracker refused the request, for the reason given.
    Failure(&'static str),
}

/// The mathematical model of a [`TrackerResponse`].
pub enum TrackerResponseModel {
    Success {
        interval: u64,
        min_interval: Option<u64>,
        tracker_id: Option<Seq<u8>>,
        complete: u64,
        incomplete: u64,
        peers: PeersModel,
        warning_message: Option<Seq<u8>>,
    },
    Failure(Seq<u8>),
}

/// The bytes of an optional byte vector.
pub open spec fn text_view(text: Option<Vec<u8>>) -> Option<Seq<u8>> {
    match text {
        Some(t) => Some(t@),
        None => None,
    }
}

impl View for TrackerResponse {
    type V = TrackerResponseModel;

    open spec fn view(&self) -> TrackerResponseModel {
        match self {
            TrackerResponse::Success {
                interval,
                min_interval,
                tracker_id,
                complete,
                incomplete,
                peers,
                warning_message,
            } => TrackerResponseModel::Success {
                interval: *interval,
                min_interval: *min_interval,
                tracker_id: text_view(*tracker_id),
                complete: *complete,
                incomplete: *incomplete,
                peers: peers@,
                warning_message: text_view(*warning_message),
            },
            TrackerResponse::Failure(reason) => TrackerResponseModel::Failure(reason.spec_bytes()),
        }
    }
}

/// The dictionary of a response. A refusal is `failure reason` alone. A
/// response that took the request is `interval`, `complete`, `incomplete`
/// and `peers`, and each of `min interval`, `tracker id` and
/// `warning message` that is there.
pub open spec fn response_entries(response: TrackerResponseModel) -> Seq<(Seq<u8>, Value)> {
    match response {
        TrackerResponseModel::Success {
            interval,
            min_interval,
            tracker_id,
            complete,
            incomplete,
            peers,
            warning_message,
        } => {
            let first = with_entry(
                Seq::empty(),
                "interval".spec_bytes(),
                Value::Int(interval as int),
            );
            let second = match min_interval {
                Some(seconds) => with_entry(
                    first,
                    "min interval".spec_bytes(),
                    Value::Int(seconds as int),
                ),
                None => first,
            };
            let third = match tracker_id {
                Some(id) => with_entry(second, "tracker id".spec_bytes(), Value::Bytes(id)),
                None => second,
            };
            let fourth = with_entry(
                with_entry(
                    with_entry(third, "complete".spec_bytes(), Value::Int(complete as int)),
                    "incomplete".spec_bytes(),
                    Value::Int(incomplete as int),
                ),
                "peers".spec_bytes(),
                peers_value(peers),
            );
            match warning_message {
                Some(message) => with_entry(
                    fourth,
                    "warning message".spec_bytes(),
                    Value::Bytes(message),
                ),
                None => fourth,
            }
        },
        TrackerResponseModel::Failure(reason) => with_entry(
            Seq::empty(),
            "failure reason".spec_bytes(),
            Value::Bytes(reason),
        ),
    }
}

impl TrackerResponse {
    /// The dictionary that describes the response.
    pub fn to_dictionary(&self) -> (dict: Dictionary)
        ensures
            dict@ == response_entries(self@),
            dict.wf(),
            all_complete(dict@),
    {
        let mut dict = Dictionary::new();
        match self {
            TrackerResponse::Success {
                interval,
                min_interval,
                tracker_id,
                complete,
                incomplete,
                peers,
                warning_message,
            } => {
                dict.insert_str("interval", Data::UInt(*interval));
                match min_interval {
                    Some(seconds) => {
                        dict.insert_str("min interval", Data::UInt(*seconds));
                    },
                    None => {},
                }
                match tracker_id {
                    Some(id) => {
                        dict.insert_str("tracker id", Data::Bytes(slice_to_vec(id.as_slice())));
                    },
                    None => {},
                }
                dict.insert_str("complete", Data::UInt(*complete));
                dict.insert_str("incomplete", Data::UInt(*incomplete));
                dict.insert_str("peers", peers.to_data());
                match warning_message {
                    Some(message) => {
                        dict.insert_str(
                            "warning message",
                            Data::Bytes(slice_to_vec(message.as_slice())),
                        );
                    },
                    None => {},
                }
            },
            TrackerResponse::Failure(reason) => {
                dict.insert_str("failure reason", Data::Bytes(slice_to_vec(reason.as_bytes())));
            },
        }
        dict
    }

    /// The bencode value that describes the response.
    pub fn to_data(&self) -> (data: Data)
        ensures
            data@ == Value::Dict(response_entries(self@)),
            data.wf(),
            data@.complete(),
    {
        Data::Dict(self.to_dictionary())
    }
}

} // verus!
