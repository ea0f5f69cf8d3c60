use bt_tracker::bencode::encode;
use bt_tracker::peer::peer_id;
use bt_tracker::tracker::query_string::{decode, QueryString};
use bt_tracker::tracker::tracker_request::parse_number;
use bt_tracker::tracker::{Ip, Peer, Peers, Reply, Server, TrackerEvent, TrackerRequest, TrackerResponse};

fn qs(pairs: &[(&str, &str)]) -> QueryString {
    QueryString::from(
        pairs
            .iter()
            .map(|(k, v)| (k.as_bytes().to_vec(), v.as_bytes().to_vec()))
            .collect(),
    )
}

#[test]
fn test_trackerrequest_from() {
    // minimal
    assert_eq!(
        TrackerRequest::from_query(qs(&[
            ("info_hash", "bbbbbbbbbbbbbbbbbbbb"),
            ("peer_id", "aaaaaaaaaaaaaaaaaaaa"),
            ("port", "8080"),
            ("uploaded", "25000"),
            ("downloaded", "3000"),
            ("left", "200"),
        ])),
        Ok(TrackerRequest {
            compact: None,
            downloaded: 3000,
            event: None,
            info_hash: [b'b'; 20],
            ip: None,
            left: 200,
            no_peer_id: None,
            numwant: None,
            peer_id: [b'a'; 20],
            port: 8080,
            trackerid: None,
            uploaded: 25000,
        })
    );
}

#[test]
fn tracker_request_from_the_wire() {
    let query = decode(
        "info_hash=bbbbbbbbbbbbbbbbbbbb&peer_id=aaaaaaaaaaaaaaaaaaaa&port=8080&uploaded=25000&downloaded=3000&left=200",
    )
    .unwrap();
    let request = TrackerRequest::from_query(query).unwrap();
    assert_eq!(request.port, 8080);
    assert_eq!(request.uploaded, 25000);
    assert_eq!(request.downloaded, 3000);
    assert_eq!(request.left, 200);
    assert_eq!(request.event, None);
}

#[test]
fn tracker_request_optional_fields() {
    let request = TrackerRequest::from_query(qs(&[
        ("info_hash", "bbbbbbbbbbbbbbbbbbbb"),
        ("peer_id", "aaaaaaaaaaaaaaaaaaaa"),
        ("port", "1"),
        ("uploaded", "2"),
        ("downloaded", "3"),
        ("left", "4"),
        ("compact", "1"),
        ("no_peer_id", "0"),
        ("event", "started"),
        ("ip", "10.0.0.1"),
        ("numwant", "50"),
        ("trackerid", "xyz"),
        ("unknown", "ignored"),
    ]))
    .unwrap();
    assert_eq!(request.compact, Some(true));
    assert_eq!(request.no_peer_id, Some(false));
    assert_eq!(request.event, Some(TrackerEvent::STARTED));
    assert_eq!(request.ip, Some(b"10.0.0.1".to_vec()));
    assert_eq!(request.numwant, Some(50));
    assert_eq!(request.trackerid, Some(b"xyz".to_vec()));
}

fn with(extra: &[(&str, &str)]) -> Result<TrackerRequest, ()> {
    let mut pairs = vec![
        ("info_hash", "bbbbbbbbbbbbbbbbbbbb"),
        ("peer_id", "aaaaaaaaaaaaaaaaaaaa"),
        ("port", "1"),
        ("uploaded", "2"),
        ("downloaded", "3"),
        ("left", "4"),
    ];
    pairs.extend_from_slice(extra);
    TrackerRequest::from_query(qs(&pairs))
}

#[test]
fn tracker_request_rejects_bad_fields() {
    assert!(with(&[]).is_ok());
    assert_eq!(with(&[("info_hash", "short")]), Err(()));
    assert_eq!(with(&[("peer_id", "aaaaaaaaaaaaaaaaaaaaa")]), Err(()));
    assert_eq!(with(&[("port", "65536")]), Err(()));
    assert_eq!(with(&[("port", "")]), Err(()));
    assert_eq!(with(&[("uploaded", "-1")]), Err(()));
    assert_eq!(with(&[("downloaded", "1x")]), Err(()));
    assert_eq!(with(&[("left", "18446744073709551616")]), Err(()));
    assert_eq!(with(&[("numwant", "many")]), Err(()));
    assert_eq!(with(&[("port", "65535")]).unwrap().port, 65535);
    assert_eq!(with(&[("left", "+7")]).unwrap().left, 7);
    assert_eq!(
        TrackerRequest::from_query(qs(&[("info_hash", "bbbbbbbbbbbbbbbbbbbb")])),
        Err(())
    );
}

#[test]
fn tracker_request_events() {
    assert_eq!(with(&[("event", "stopped")]).unwrap().event, Some(TrackerEvent::STOPPED));
    assert_eq!(with(&[("event", "completed")]).unwrap().event, Some(TrackerEvent::COMPLETED));
    assert_eq!(with(&[("event", "whatever")]).unwrap().event, Some(TrackerEvent::REGULAR));
    assert_eq!(with(&[("event", "")]).unwrap().event, Some(TrackerEvent::REGULAR));
    assert_eq!(TrackerEvent::from_bytes(&[0xff, 0xfe]), None);
    assert_eq!(TrackerEvent::from_bytes("h○llow".as_bytes()), Some(TrackerEvent::REGULAR));
    assert_eq!(TrackerEvent::STARTED.as_str(), "started");
    assert_eq!(TrackerEvent::STOPPED.as_str(), "stopped");
    assert_eq!(TrackerEvent::COMPLETED.as_str(), "completed");
    assert_eq!(TrackerEvent::REGULAR.as_str(), "");
}

#[test]
fn tracker_numbers() {
    assert_eq!(parse_number(b"0", 10), Some(0));
    assert_eq!(parse_number(b"0010", 10), Some(10));
    assert_eq!(parse_number(b"11", 10), None);
    assert_eq!(parse_number(b"+", 10), None);
    assert_eq!(parse_number(b"", 10), None);
    assert_eq!(parse_number(b"1 ", 10), None);
    assert_eq!(parse_number(b"18446744073709551615", u64::MAX), Some(u64::MAX));
    assert_eq!(parse_number(b"99999999999999999999999x", u64::MAX), None);
}

#[test]
fn test_peer_into() {
    assert_eq!(
        encode(bt_tracker::bencode::Data::Dict(
            Peer {
                ip: Ip::V4([127, 0, 0, 1]),
                peer_id: [b'1'; 20],
                port: 16384,
            }
            .to_dictionary()
        )),
        &b"d2:ip9:127.0.0.17:peer id20:111111111111111111114:porti16384ee"[..]
    );

    assert_eq!(
        encode(bt_tracker::bencode::Data::Dict(
            Peer {
                ip: Ip::Text(b"::1".to_vec()),
                peer_id: [0; 20],
                port: 25565
            }
            .to_dictionary()
        )),
        &b"d2:ip3:::17:peer id20:\x00\x00\x00\x00\x00\x00\x00\x00\x00\x00\x00\x00\x00\x00\x00\x00\x00\x00\x00\x004:porti25565ee"[..]
    );
}

#[test]
fn test_trackerresponse_into() {
    assert_eq!(
        encode(
            TrackerResponse::Success {
                interval: 300,
                min_interval: None,
                tracker_id: None,
                complete: 1,
                incomplete: 0,
                peers: Peers::Full(vec![Peer {
                    ip: Ip::V4([127, 0, 0, 1]),
                    peer_id: [b'1'; 20],
                    port: 16384,
                }]),
                warning_message: None,
            }
            .to_data()
        ),
        &b"d8:completei1e10:incompletei0e8:intervali300e5:peersld2:ip9:127.0.0.17:peer id20:111111111111111111114:porti16384eeee"[..]
    );
}

#[test]
fn tracker_response_with_every_field() {
    assert_eq!(
        encode(
            TrackerResponse::Success {
                interval: 1,
                min_interval: Some(2),
                tracker_id: Some(b"id".to_vec()),
                complete: 3,
                incomplete: 4,
                peers: Peers::create_compact(vec![([10, 0, 0, 1], 6881), ([192, 168, 1, 2], 80)]),
                warning_message: Some(b"hm".to_vec()),
            }
            .to_data()
        ),
        &b"d8:completei3e10:incompletei4e8:intervali1e12:min intervali2e5:peers12:\x0a\x00\x00\x01\x1a\xe1\xc0\xa8\x01\x02\x00\x5010:tracker id2:id15:warning message2:hme"[..]
    );
    assert_eq!(
        encode(TrackerResponse::Failure("Invalid info hash.").to_data()),
        b"d14:failure reason18:Invalid info hash.e"
    );
}

#[test]
fn tracker_ip_text() {
    assert_eq!(Ip::V4([0, 10, 255, 100]).to_text(), b"0.10.255.100");
    assert_eq!(Ip::Text(b"tracker.example".to_vec()).to_text(), b"tracker.example");
}

fn server(info_hash: [u8; 20]) -> Server {
    Server { info_hash, peer_id: peer_id(4242), peer_port: 16384 }
}

const ANNOUNCE: &[u8] = b"GET /announce?info_hash=11111111111111111111&peer_id=magicnumber123456789&port=25565&uploaded=4&downloaded=5&left=6 HTTP/1.1\r\n";

#[test]
fn test_handle_req() {
    let local = Ip::V4([127, 0, 0, 1]);
    assert_eq!(
        server([1; 20]).handle_request(b"GET / HTTP/1.1\r\n\r\n", &local, b"192.168.7.160"),
        Reply { response: b"HTTP/1.1 400 BAD REQUEST\r\n\r\n".to_vec(), publish: false }
    );

    let mut expected = b"HTTP/1.1 200 OK\r\nContent-Length: 162\r\nContent-Type: text/plain\r\n\r\nd8:completei1e10:incompletei0e8:intervali300e5:peersld2:ip9:127.0.0.17:peer id20:".to_vec();
    expected.extend_from_slice(&peer_id(4242));
    expected.extend_from_slice(b"4:porti16384eee15:warning message24:Your IP is 192.168.7.160e\r\n");
    assert_eq!(
        server([b'1'; 20]).handle_request(ANNOUNCE, &local, b"192.168.7.160"),
        Reply { response: expected, publish: true }
    );

    assert_eq!(
        server([b'2'; 20]).handle_request(ANNOUNCE, &local, b"192.168.7.160"),
        Reply {
            response: b"HTTP/1.1 200 OK\r\nContent-Length: 40\r\nContent-Type: text/plain\r\n\r\nd14:failure reason18:Invalid info hash.e\r\n".to_vec(),
            publish: false
        }
    );
}

#[test]
fn tracker_packs_the_peer_on_request() {
    let request = b"GET /announce?info_hash=11111111111111111111&peer_id=magicnumber123456789&port=25565&uploaded=4&downloaded=5&left=6&compact=1 HTTP/1.1\r\n";
    let reply = server([b'1'; 20]).handle_request(request, &Ip::V4([10, 1, 2, 3]), b"::1");
    assert!(reply.publish);
    assert_eq!(
        reply.response,
        &b"HTTP/1.1 200 OK\r\nContent-Length: 96\r\nContent-Type: text/plain\r\n\r\nd8:completei1e10:incompletei0e8:intervali300e5:peers6:\x0a\x01\x02\x03\x40\x0015:warning message14:Your IP is ::1e\r\n"[..]
    );
    // a host name cannot be packed
    let reply = server([b'1'; 20]).handle_request(request, &Ip::Text(b"host".to_vec()), b"::1");
    assert!(reply.publish);
    let text = String::from_utf8_lossy(&reply.response).into_owned();
    assert!(text.contains("5:peersld2:ip4:host7:peer id20:"));
}

#[test]
fn tracker_rejects_what_is_no_announce() {
    let local = Ip::V4([127, 0, 0, 1]);
    let bad = Reply { response: b"HTTP/1.1 400 BAD REQUEST\r\n\r\n".to_vec(), publish: false };
    let tracker = server([b'1'; 20]);
    assert_eq!(tracker.handle_request(b"", &local, b"x"), bad);
    assert_eq!(tracker.handle_request(b"POST /announce?a=b HTTP/1.1\r\n", &local, b"x"), bad);
    // no space behind the query
    assert_eq!(
        tracker.handle_request(
            b"GET /announce?info_hash=11111111111111111111&peer_id=magicnumber123456789&port=25565&uploaded=4&downloaded=5&left=6",
            &local,
            b"x"
        ),
        bad
    );
    // a field is missing
    assert_eq!(
        tracker.handle_request(
            b"GET /announce?info_hash=11111111111111111111&peer_id=magicnumber123456789 HTTP/1.1\r\n",
            &local,
            b"x"
        ),
        bad
    );
    // not UTF-8
    assert_eq!(tracker.handle_request(b"GET /announce?a=\xff HTTP/1.1\r\n", &local, b"x"), bad);
}
