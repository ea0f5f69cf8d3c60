//! The announce request of a client.

use vstd::prelude::*;
use vstd::string::{is_ascii, is_ascii_spec_bytes, StringSliceAdditionalSpecFns};
use vstd::utf8::valid_utf8;
use crate::bencode::decode::to_dec_digit;
use crate::bencode::entries::lemma_lookup_without_other;
use crate::bencode::grammar::{all_digits, digits_value, is_digit, lemma_digits_value_grows};
use crate::bencode::order::bytes_equal;
use crate::bencode::value::{lookup, without_key, Value};
use crate::bytes::{is_utf8, to_array_20};
use crate::tracker::query_string::{text_at, QueryString};

verus! {

/// Why a client announces.
#[allow(non_camel_case_types)]
#[derive(PartialEq, Eq, Debug, Clone, Copy, Structural)]
pub enum TrackerEvent {
    /// The first request of a download.
    STARTED,
    /// The client shuts down gracefully.
    STOPPED,
    /// The download has just been completed.
    COMPLETED,
    /// One of the requests that a client sends at regular intervals.
    REGULAR,
}

/// The event that a text names: `started`, `stopped` or `completed`; any
/// other text stands for a regular request.
pub open spec fn event_of(text: Seq<u8>) -> TrackerEvent {
    if text == "started".spec_bytes() {
        TrackerEvent::STARTED
    } else if text == "stopped".spec_bytes() {
        TrackerEvent::STOPPED
    } else if text == "completed".spec_bytes() {
        TrackerEvent::COMPLETED
    } else {
        TrackerEvent::REGULAR
    }
}

/// The event that the bytes of an `event` field name; none where the bytes
/// are not well-formed UTF-8.
pub open spec fn event_from(bytes: Seq<u8>) -> Option<TrackerEvent> {
    if valid_utf8(bytes) {
        Some(event_of(bytes))
    } else {
        None
    }
}

impl TrackerEvent {
    /// The text that names the event; a regular request has the empty name.
    pub fn as_str(self) -> (name: &'static str)
        ensures
            name@ == match self {
                TrackerEvent::STARTED => "started"@,
                TrackerEvent::STOPPED => "stopped"@,
                TrackerEvent::COMPLETED => "completed"@,
                TrackerEvent::REGULAR => ""@,
            },
    {
        match self {
            TrackerEvent::STARTED => "started",
            TrackerEvent::STOPPED => "stopped",
            TrackerEvent::COMPLETED => "completed",
            TrackerEvent::REGULAR => "",
        }
    }

    /// The event that `text` names.
    pub fn from_text(text: &[u8]) -> (event: TrackerEvent)
        ensures
            event == event_of(text@),
    {
        if bytes_equal(text, "started".as_bytes()) {
            TrackerEvent::STARTED
        } else if bytes_equal(text, "stopped".as_bytes()) {
            TrackerEvent::STOPPED
        } else if bytes_equal(text, "completed".as_bytes()) {
            TrackerEvent::COMPLETED
        } else {
            TrackerEvent::REGULAR
        }
    }

    /// The event that the bytes of an `event` field name; none where the
    /// bytes are not well-formed UTF-8.
    pub fn from_bytes(bytes: &[u8]) -> (event: Option<TrackerEvent>)
        ensures
            event == event_from(bytes@),
    {
        if is_utf8(bytes) {
            Some(TrackerEvent::from_text(bytes))
        } else {
            None
        }
    }
}

/// An announce request.
#[derive(PartialEq, Debug)]
pub struct TrackerRequest {
    /// The SHA-1 hash of the info dictionary of the torrent.
    pub info_hash: [u8; 20],
    /// The identifier that the client chose for itself.
    pub peer_id: [u8; 20],
    /// The port that the client listens on.
    pub port: u16,
    /// The number of bytes uploaded so far.
    pub uploaded: u64,
    /// The number of bytes downloaded so far.
    pub downloaded: u64,
    /// The number of bytes that are still to be downloaded.
    pub left: u64,
    /// Whether the client takes the packed list of peers.
    pub compact: Option<bool>,
    /// Whether the client can do without the identifiers of the peers.
    pub no_peer_id: Option<bool>,
    /// Why the client announces; nothing for a regular request.
    pub event: Option<TrackerEvent>,
    /// The address that the client wants to be known under.
    pub ip: Option<Vec<u8>>,
    /// The number of peers that the client asks for.
    pub numwant: Option<u64>,
    /// The tracker identifier of an earlier response.
    pub trackerid: Option<Vec<u8>>,
}

/// The mathematical model of a [`TrackerRequest`].
pub struct TrackerRequestModel {
    pub info_hash: Seq<u8>,
    pub peer_id: Seq<u8>,
    pub port: u16,
    pub uploaded: u64,
    pub downloaded: u64,
    pub left: u64,
    pub compact: Option<bool>,
    pub no_peer_id: Option<bool>,
    pub event: Option<TrackerEvent>,
    pub ip: Option<Seq<u8>>,
    pub numwant: Option<u64>,
    pub trackerid: Option<Seq<u8>>,
}

/// The bytes of an optional byte vector.
pub open spec fn optional_view(bytes: Option<Vec<u8>>) -> Option<Seq<u8>> {
    match bytes {
        Some(b) => Some(b@),
        None => None,
    }
}

impl View for TrackerRequest {
    type V = TrackerRequestModel;

    open spec fn view(&self) -> TrackerRequestModel {
        TrackerRequestModel {
            info_hash: self.info_hash@,
            peer_id: self.peer_id@,
            port: self.port,
            uploaded: self.uploaded,
            downloaded: self.downloaded,
            left: self.left,
            compact: self.compact,
            no_peer_id: self.no_peer_id,
            event: self.event,
            ip: optional_view(self.ip),
            numwant: self.numwant,
            trackerid: optional_view(self.trackerid),
        }
    }
}

/// The number that a decimal text stands for, where it is at most `max`: an
/// optional plus sign, then one digit or more. Nothing for any other text.
pub open spec fn decimal_value(text: Seq<u8>, max: int) -> Option<int> {
    let digits = if text.len() > 0 && text[0] == 43 {
        text.drop_first()
    } else {
        text
    };
    if digits.len() > 0 && all_digits(digits) && digits_value(digits, 0) <= max {
        Some(digits_value(digits, 0))
    } else {
        None
    }
}

/// The number that the decimal text `text` stands for, where it is at most
/// `max`.
pub fn parse_number(text: &[u8], max: u64) -> (number: Option<u64>)
    ensures
        match number {
            Some(n) => decimal_value(text@, max as int) == Some(n as int),
            None => decimal_value(text@, max as int) is None,
        },
{
    let start: usize = if text.len() > 0 && text[0] == 43 {
        1
    } else {
        0
    };
    if start >= text.len() {
        return None;
    }
    let ghost digits = text@.skip(start as int);
    proof {
        if start == 1 {
            assert(text@.drop_first() =~= digits);
        } else {
            assert(text@ =~= digits);
        }
    }
    let mut n: u64 = 0;
    let mut i: usize = start;
    while i < text.len()
        invariant
            start <= i <= text.len(),
            digits == text@.skip(start as int),
            digits == if text@.len() > 0 && text@[0] == 43 {
                text@.drop_first()
            } else {
                text@
            },
            n <= max,
            forall|k: int| start <= k < i ==> is_digit(#[trigger] text@[k]),
            digits_value(digits, 0) == digits_value(text@.skip(i as int), n as int),
        decreases text.len() - i,
    {
        let ghost tail = text@.skip(i as int);
        assert(tail[0] == text@[i as int]);
        assert(tail.drop_first() =~= text@.skip(i + 1));
        match to_dec_digit(text[i]) {
            Some(digit) => {
                let next: u128 = n as u128 * 10 + digit as u128;
                if next > max as u128 {
                    proof {
                        if all_digits(digits) {
                            assert forall|k: int| 0 <= k < tail.drop_first().len() implies is_digit(
                                #[trigger] tail.drop_first()[k],
                            ) by {
                                assert(tail.drop_first()[k] == digits[i + 1 + k - start]);
                            }
                            lemma_digits_value_grows(tail.drop_first(), next as int);
                        }
                    }
                    return None;
                }
                n = next as u64;
            },
            None => {
                assert(!is_digit(digits[i - start]));
                return None;
            },
        }
        i += 1;
    }
    proof {
        assert(text@.skip(i as int) =~= Seq::empty());
        assert forall|k: int| 0 <= k < digits.len() implies is_digit(#[trigger] digits[k]) by {
            assert(digits[k] == text@[start + k]);
        }
    }
    Some(n)
}

/// What an optional flag field says: set for every text but `0`.
pub open spec fn flag_at(pairs: Seq<(Seq<u8>, Value)>, key: Seq<u8>) -> Option<bool> {
    match text_at(pairs, key) {
        Some(text) => Some(text != seq![48u8]),
        None => None,
    }
}

/// The request that the pairs of a query string make.
///
/// `info_hash` and `peer_id` must be there with 20 bytes each; `port`,
/// `uploaded`, `downloaded` and `left` must be there as decimal numbers that
/// fit their fields; `numwant`, where it is there, must be a decimal number.
/// `compact` and `no_peer_id` are flags, `ip` and `trackerid` are taken as
/// they are, and `event` names the event. Other keys are not looked at.
pub open spec fn request_from(pairs: Seq<(Seq<u8>, Value)>) -> Option<TrackerRequestModel> {
    match (
        text_at(pairs, "info_hash".spec_bytes()),
        text_at(pairs, "peer_id".spec_bytes()),
        text_at(pairs, "port".spec_bytes()),
        text_at(pairs, "uploaded".spec_bytes()),
        text_at(pairs, "downloaded".spec_bytes()),
        text_at(pairs, "left".spec_bytes()),
    ) {
        (
            Some(info_hash),
            Some(peer_id),
            Some(port),
            Some(uploaded),
            Some(downloaded),
            Some(left),
        ) => {
            match (
                decimal_value(port, u16::MAX as int),
                decimal_value(uploaded, u64::MAX as int),
                decimal_value(downloaded, u64::MAX as int),
                decimal_value(left, u64::MAX as int),
            ) {
                (Some(port), Some(uploaded), Some(downloaded), Some(left)) => {
                    let numwant = match text_at(pairs, "numwant".spec_bytes()) {
                        Some(text) => match decimal_value(text, u64::MAX as int) {
                            Some(n) => Some(Some(n as u64)),
                            None => None,
                        },
                        None => Some(None),
                    };
                    if info_hash.len() == 20 && peer_id.len() == 20 && numwant is Some {
                        Some(
                            TrackerRequestModel {
                                info_hash,
                                peer_id,
                                port: port as u16,
                                uploaded: uploaded as u64,
                                downloaded: downloaded as u64,
                                left: left as u64,
                                compact: flag_at(pairs, "compact".spec_bytes()),
                                no_peer_id: flag_at(pairs, "no_peer_id".spec_bytes()),
                                event: match text_at(pairs, "event".spec_bytes()) {
                                    Some(text) => event_from(text),
                                    None => None,
                                },
                                ip: text_at(pairs, "ip".spec_bytes()),
                                numwant: numwant.unwrap(),
                                trackerid: text_at(pairs, "trackerid".spec_bytes()),
                            },
                        )
                    } else {
                        None
                    }
                },
                _ => None,
            }
        },
        _ => None,
    }
}

/// The length and the first byte of each key of an announce request. No two
/// keys agree in both, so the keys differ from each other.
pub proof fn lemma_request_keys()
    ensures
        "info_hash".spec_bytes().len() == 9 && "info_hash".spec_bytes()[0] == 105,
        "peer_id".spec_bytes().len() == 7 && "peer_id".spec_bytes()[0] == 112,
        "port".spec_bytes().len() == 4 && "port".spec_bytes()[0] == 112,
        "uploaded".spec_bytes().len() == 8 && "uploaded".spec_bytes()[0] == 117,
        "downloaded".spec_bytes().len() == 10 && "downloaded".spec_bytes()[0] == 100,
        "left".spec_bytes().len() == 4 && "left".spec_bytes()[0] == 108,
        "compact".spec_bytes().len() == 7 && "compact".spec_bytes()[0] == 99,
        "no_peer_id".spec_bytes().len() == 10 && "no_peer_id".spec_bytes()[0] == 110,
        "event".spec_bytes().len() == 5 && "event".spec_bytes()[0] == 101,
        "ip".spec_bytes().len() == 2 && "ip".spec_bytes()[0] == 105,
        "numwant".spec_bytes().len() == 7 && "numwant".spec_bytes()[0] == 110,
        "trackerid".spec_bytes().len() == 9 && "trackerid".spec_bytes()[0] == 116,
{
    reveal_strlit("info_hash");
    reveal_strlit("peer_id");
    reveal_strlit("port");
    reveal_strlit("uploaded");
    reveal_strlit("downloaded");
    reveal_strlit("left");
    reveal_strlit("compact");
    reveal_strlit("no_peer_id");
    reveal_strlit("event");
    reveal_strlit("ip");
    reveal_strlit("numwant");
    reveal_strlit("trackerid");
    assert(is_ascii("info_hash"));
    assert(is_ascii("peer_id"));
    assert(is_ascii("port"));
    assert(is_ascii("uploaded"));
    assert(is_ascii("downloaded"));
    assert(is_ascii("left"));
    assert(is_ascii("compact"));
    assert(is_ascii("no_peer_id"));
    assert(is_ascii("event"));
    assert(is_ascii("ip"));
    assert(is_ascii("numwant"));
    assert(is_ascii("trackerid"));
    is_ascii_spec_bytes("info_hash");
    is_ascii_spec_bytes("peer_id");
    is_ascii_spec_bytes("port");
    is_ascii_spec_bytes("uploaded");
    is_ascii_spec_bytes("downloaded");
    is_ascii_spec_bytes("left");
    is_ascii_spec_bytes("compact");
    is_ascii_spec_bytes("no_peer_id");
    is_ascii_spec_bytes("event");
    is_ascii_spec_bytes("ip");
    is_ascii_spec_bytes("numwant");
    is_ascii_spec_bytes("trackerid");
}

/// `entries` without each of the keys `gone`.
pub open spec fn without_keys(entries: Seq<(Seq<u8>, Value)>, gone: Seq<Seq<u8>>) -> Seq<
    (Seq<u8>, Value),
>
    decreases gone.len(),
{
    if gone.len() == 0 {
        entries
    } else {
        without_key(without_keys(entries, gone.drop_last()), gone.last())
    }
}

/// Taking keys out does not change what another key is bound to.
pub proof fn lemma_lookup_without_keys(
    entries: Seq<(Seq<u8>, Value)>,
    gone: Seq<Seq<u8>>,
    key: Seq<u8>,
)
    requires
        forall|i: int| 0 <= i < gone.len() ==> gone[i] != key,
    ensures
        lookup(without_keys(entries, gone), key) == lookup(entries, key),
    decreases gone.len(),
{
    if gone.len() > 0 {
        lemma_lookup_without_keys(entries, gone.drop_last(), key);
        lemma_lookup_without_other(without_keys(entries, gone.drop_last()), gone.last(), key);
    }
}

/// A key that is none of the keys taken out so far is bound as it was at
/// the start.
proof fn lemma_still_there(
    start: Seq<(Seq<u8>, Value)>,
    now: Seq<(Seq<u8>, Value)>,
    gone: Seq<Seq<u8>>,
    key: Seq<u8>,
)
    requires
        now == without_keys(start, gone),
        forall|i: int| 0 <= i < gone.len() ==> gone[i] != key,
    ensures
        text_at(now, key) == text_at(start, key),
        lookup(now, key) == lookup(start, key),
        without_key(now, key) == without_keys(start, gone.push(key)),
{
    lemma_lookup_without_keys(start, gone, key);
    assert(gone.push(key).drop_last() =~= gone);
}

impl TrackerRequest {
    /// The request that a query string makes, or an error where a field
    /// that must be there is missing or a field does not read as its type.
    pub fn from_query(query: QueryString) -> (r: Result<TrackerRequest, ()>)
        requires
            query.wf(),
        ensures
            match request_from(query@) {
                Some(request) => r matches Ok(x) && x@ == request,
                None => r is Err,
            },
    {
        let ghost start = query@;
        let mut query = query;
        let ghost mut gone: Seq<Seq<u8>> = Seq::empty();
        proof {
            lemma_request_keys();
            lemma_still_there(start, query@, gone, "info_hash".spec_bytes());
            gone = gone.push("info_hash".spec_bytes());
        }
        let info_hash = match query.remove("info_hash") {
            Some(bytes) => match to_array_20(bytes.as_slice()) {
                Some(hash) => hash,
                None => {
                    return Err(());
                },
            },
            None => {
                return Err(());
            },
        };
        proof {
            lemma_still_there(start, query@, gone, "peer_id".spec_bytes());
            gone = gone.push("peer_id".spec_bytes());
        }
        let peer_id = match query.remove("peer_id") {
            Some(bytes) => match to_array_20(bytes.as_slice()) {
                Some(id) => id,
                None => {
                    return Err(());
                },
            },
            None => {
                return Err(());
            },
        };
        proof {
            lemma_still_there(start, query@, gone, "port".spec_bytes());
            gone = gone.push("port".spec_bytes());
        }
        let port = match query.remove("port") {
            Some(text) => match parse_number(text.as_slice(), 65535) {
                Some(n) => n as u16,
                None => {
                    return Err(());
                },
            },
            None => {
                return Err(());
            },
        };
        proof {
            lemma_still_there(start, query@, gone, "uploaded".spec_bytes());
            gone = gone.push("uploaded".spec_bytes());
        }
        let uploaded = match query.remove("uploaded") {
            Some(text) => match parse_number(text.as_slice(), u64::MAX) {
                Some(n) => n,
                None => {
                    return Err(());
                },
            },
            None => {
                return Err(());
            },
        };
        proof {
            lemma_still_there(start, query@, gone, "downloaded".spec_bytes());
            gone = gone.push("downloaded".spec_bytes());
        }
        let downloaded = match query.remove("downloaded") {
            Some(text) => match parse_number(text.as_slice(), u64::MAX) {
                Some(n) => n,
                None => {
                    return Err(());
                },
            },
            None => {
                return Err(());
            },
        };
        proof {
            lemma_still_there(start, query@, gone, "left".spec_bytes());
            gone = gone.push("left".spec_bytes());
        }
        let left = match query.remove("left") {
            Some(text) => match parse_number(text.as_slice(), u64::MAX) {
                Some(n) => n,
                None => {
                    return Err(());
                },
            },
            None => {
                return Err(());
            },
        };
        proof {
            lemma_still_there(start, query@, gone, "compact".spec_bytes());
            gone = gone.push("compact".spec_bytes());
        }
        let compact = match query.remove("compact") {
            Some(text) => Some(!(text.len() == 1 && text[0] == 48)),
            None => None,
        };
        proof {
            let text = text_at(start, "compact".spec_bytes());
            if text is Some {
                if text.unwrap().len() == 1 && text.unwrap()[0] == 48 {
                    assert(text.unwrap() =~= seq![48u8]);
                }
            }
            lemma_still_there(start, query@, gone, "no_peer_id".spec_bytes());
            gone = gone.push("no_peer_id".spec_bytes());
        }
        let no_peer_id = match query.remove("no_peer_id") {
            Some(text) => Some(!(text.len() == 1 && text[0] == 48)),
            None => None,
        };
        proof {
            let text = text_at(start, "no_peer_id".spec_bytes());
            if text is Some {
                if text.unwrap().len() == 1 && text.unwrap()[0] == 48 {
                    assert(text.unwrap() =~= seq![48u8]);
                }
            }
            lemma_still_there(start, query@, gone, "event".spec_bytes());
            gone = gone.push("event".spec_bytes());
        }
        let event = match query.remove("event") {
            Some(bytes) => TrackerEvent::from_bytes(bytes.as_slice()),
            None => None,
        };
        proof {
            lemma_still_there(start, query@, gone, "ip".spec_bytes());
            gone = gone.push("ip".spec_bytes());
        }
        let ip = query.remove("ip");
        proof {
            lemma_still_there(start, query@, gone, "numwant".spec_bytes());
            gone = gone.push("numwant".spec_bytes());
        }
        let numwant = match query.remove("numwant") {
            Some(text) => match parse_number(text.as_slice(), u64::MAX) {
                Some(n) => Some(n),
                None => {
                    return Err(());
                },
            },
            None => None,
        };
        proof {
            lemma_still_there(start, query@, gone, "trackerid".spec_bytes());
        }
        let trackerid = query.remove("trackerid");
        Ok(
            TrackerRequest {
                info_hash,
                peer_id,
                port,
                uploaded,
                downloaded,
                left,
                compact,
                no_peer_id,
                event,
                ip,
                numwant,
                trackerid,
            },
        )
    }
}

} // verus!
