use bt_tracker::bytes::{to_hex, to_plain_or_hex, BytesExt};
use bt_tracker::config::{parse_info_hash, Action, Argument, Config, PeerHost, Token};
use bt_tracker::tracker::Ip;

#[test]
fn test_action_from() {
    assert_eq!(
        Action::try_from("ls -la".to_string()),
        Ok(Action {
            program: "ls".into(),
            args: vec![Token::String("-la".into())]
        })
    );

    assert_eq!(Action::try_from(String::new()), Err("Empty action field."));

    assert_eq!(
        Action::try_from("abc de %IP".to_string()),
        Ok(Action {
            program: "abc".to_string(),
            args: vec![Token::String("de".into()), Token::IP]
        })
    );
}

#[test]
fn test_action_command() {
    let one = Action::try_from("ls -la".to_string()).unwrap();
    assert_eq!(one.program, "ls");
    assert_eq!(one.arguments("127.0.0.1"), vec!["-la"]);

    let two = Action::try_from("echo Your IP is %IP".to_string()).unwrap();
    assert_eq!(two.program, "echo");
    assert_eq!(two.arguments("::1"), vec!["Your", "IP", "is", "::1"]);
}

#[test]
fn action_splits_on_any_white_space() {
    assert_eq!(
        Action::try_from("  a\t%IP\n%ip  %IP ".to_string()),
        Ok(Action {
            program: "a".into(),
            args: vec![Token::IP, Token::String("%ip".into()), Token::IP]
        })
    );
    assert_eq!(Action::try_from(" \t ".to_string()), Err("Empty action field."));
    assert_eq!(Action::from_words(vec![]), Err("Empty action field."));
}

#[test]
fn info_hash_from_hexadecimal() {
    assert_eq!(
        parse_info_hash("ffffffffffffffffffffffffffffffffffffffff"),
        Ok([0xff; 20])
    );
    assert_eq!(
        parse_info_hash("000102030405060708090a0B0c0D0e0F10111213"),
        Ok([0, 1, 2, 3, 4, 5, 6, 7, 8, 9, 10, 11, 12, 13, 14, 15, 16, 17, 18, 19])
    );
    assert_eq!(parse_info_hash("abc"), Err("Invalid length of info hash."));
    assert_eq!(parse_info_hash(""), Err("Invalid length of info hash."));
    assert_eq!(parse_info_hash("####"), Err("Invalid info hash."));
    assert_eq!(
        parse_info_hash("00000000000000000000000000000000000000000000000000000000000000000000000000000000"),
        Err("Invalid length of info hash.")
    );
    // a character that is left over is not looked at
    assert_eq!(
        parse_info_hash("ffffffffffffffffffffffffffffffffffffffff#"),
        Ok([0xff; 20])
    );
    assert_eq!(parse_info_hash("é"), Err("Invalid length of info hash."));
}

#[test]
fn peer_host_picks_the_address() {
    let local = Ip::V4([127, 0, 0, 1]);
    assert_eq!(PeerHost::INFER.resolve(b"host", &local), local);
    assert_eq!(PeerHost::HOST.resolve(b"host", &local), Ip::Text(b"host".to_vec()));
    assert_eq!(
        PeerHost::IP(Ip::V4([1, 2, 3, 4])).resolve(b"host", &local),
        Ip::V4([1, 2, 3, 4])
    );
}

#[test]
fn bytes_are_shown() {
    assert_eq!(to_hex(&[0x00, 0x0f, 0xde, 0xad]), b"000fdead");
    assert_eq!([0xde_u8, 0xad, 0x01].to_hex_string(), "dead01");
    assert_eq!(to_plain_or_hex(b"a:Z 9\n\xff"), b"a:Z 90x0a0xff");
    assert_eq!(b"ok\x00"[..].to_alphanumeric_or_hex(), "ok0x00");
    assert_eq!(BytesExt::to_string(&b"h\xE2\x97\x8Bllow"[..]), "h○llow");
    assert_eq!(BytesExt::to_string(&b"a\xffb"[..]), "a\u{fffd}b");
}

fn args(texts: &[&str]) -> Vec<Argument> {
    texts
        .iter()
        .map(|text| Argument {
            text: text.to_string(),
            is_file: *text == "Cargo.toml",
            address: match *text {
                "127.0.0.1" => Some(Ip::V4([127, 0, 0, 1])),
                "::1" => Some(Ip::Text(b"::1".to_vec())),
                _ => None,
            },
        })
        .collect()
}

const ZEROS: &str = "0000000000000000000000000000000000000000";

#[test]
fn test_config_from() {
    assert_eq!(
        Config::load(args(&[
            "-n",
            "ls -la",
            "--info",
            "ffffffffffffffffffffffffffffffffffffffff",
            "--expected-ip",
            "127.0.0.1"
        ])),
        Ok(Config {
            info_hash: [0xff; 20],
            notify: Action {
                program: "ls".into(),
                args: vec![Token::String("-la".into())],
            },
            host: "127.0.0.1".into(),
            peer_host: PeerHost::INFER,
            server_port: 3000,
            peer_port: 16384,
            file: None,
            expected_ip: Ip::V4([127, 0, 0, 1]),
        })
    );

    assert_eq!(Config::load(args(&[])), Err("Missing command."));

    assert_eq!(Config::load(args(&["-n"])), Err("Missing value for \"notify\""));

    assert_eq!(Config::load(args(&["-n", ""])), Err("Empty action field."));

    assert_eq!(Config::load(args(&["-n", "ls -la"])), Err("Missing info hash."));

    assert_eq!(
        Config::load(args(&["-n", "ls -la", "-i"])),
        Err("Missing expected argument.")
    );

    assert_eq!(
        Config::load(args(&["-n", "ls -la", "-i", "abc"])),
        Err("Invalid length of info hash.")
    );

    assert_eq!(
        Config::load(args(&["-n", "ls -la", "-i", "####"])),
        Err("Invalid info hash.")
    );

    assert_eq!(
        Config::load(args(&[
            "-n",
            "ls -la",
            "-i",
            "00000000000000000000000000000000000000000000000000000000000000000000000000000000",
            "-f",
            "this file doesn't exist"
        ])),
        Err("Argument is not a file.")
    );

    // directory
    assert_eq!(
        Config::load(args(&[
            "-n",
            "ls -la",
            "-i",
            "00000000000000000000000000000000000000000000000000000000000000000000000000000000",
            "-f",
            "src"
        ])),
        Err("Argument is not a file.")
    );

    assert_eq!(
        Config::load(args(&["-n", "true", "-i", ZEROS, "-e", "127.3"])),
        Err("Invalid IP address.")
    )
}

#[test]
fn config_takes_every_option() {
    assert_eq!(
        Config::load(args(&[
            "--notify",
            "say %IP",
            "-e",
            "::1",
            "-h",
            "tracker.example",
            "-s",
            "80",
            "--peer-port",
            "+6881",
            "-f",
            "Cargo.toml",
            "--peer-host",
            "host",
        ])),
        Ok(Config {
            info_hash: [0; 20],
            notify: Action {
                program: "say".into(),
                args: vec![Token::IP],
            },
            host: "tracker.example".into(),
            peer_host: PeerHost::HOST,
            server_port: 80,
            peer_port: 6881,
            file: Some("Cargo.toml".into()),
            expected_ip: Ip::Text(b"::1".to_vec()),
        })
    );
    let base = ["-n", "x", "-i", ZEROS, "-e", "127.0.0.1"];
    let with = |extra: &[&str]| {
        let mut all = base.to_vec();
        all.extend_from_slice(extra);
        Config::load(args(&all))
    };
    assert_eq!(with(&["--peer-host", "127.0.0.1"]).unwrap().peer_host, PeerHost::IP(Ip::V4([127, 0, 0, 1])));
    assert_eq!(with(&["--peer-host", "infer"]).unwrap().peer_host, PeerHost::INFER);
    assert_eq!(with(&["--peer-host", "nowhere"]), Err("Invalid IP address"));
    assert_eq!(with(&["--peer-host"]), Err("Invalid peer host."));
    assert_eq!(with(&["-s", "65536"]), Err("Invalid server port (must be a number 0 < port < 65536)"));
    assert_eq!(with(&["-p", "http"]), Err("Invalid peer port (must be a number 0 < port < 65536)"));
    assert_eq!(with(&["-f"]), Err("Missing value for \"file\""));
    assert_eq!(with(&["-h"]), Err("Missing expected argument."));
    assert_eq!(with(&["--verbose", "1"]), Err("Unexpected token."));
    assert_eq!(with(&["extra"]), Err("Unexpected token."));
}

#[test]
fn config_later_options_mend_earlier_ones() {
    // a fault that is kept in the draft is gone when the option comes again
    assert_eq!(
        Config::load(args(&["-n", "", "-n", "x", "-i", "abc", "-i", ZEROS, "-e", "bad", "-e", "::1"]))
            .map(|config| config.expected_ip),
        Ok(Ip::Text(b"::1".to_vec()))
    );
    // the first missing setting is reported
    assert_eq!(Config::load(args(&["-e", "127.0.0.1"])), Err("Missing command."));
    assert_eq!(Config::load(args(&["-n", "x", "-i", ZEROS])), Err("Missing expected ip."));
    // a fault that ends the reading comes before one that is kept
    assert_eq!(Config::load(args(&["-n", "", "-s", "x"])), Err("Invalid server port (must be a number 0 < port < 65536)"));
}

#[test]
fn notify_for_every_address_but_the_expected_one() {
    let config = Config::load(args(&["-n", "x", "-i", ZEROS, "-e", "127.0.0.1"])).unwrap();
    assert!(!config.notifies(&Ip::V4([127, 0, 0, 1])));
    assert!(config.notifies(&Ip::V4([127, 0, 0, 2])));
    assert!(config.notifies(&Ip::Text(b"::1".to_vec())));
    assert!(config.notifies(&Ip::Text(b"127.0.0.1".to_vec())));
}
