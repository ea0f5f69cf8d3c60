use bt_tracker::tracker::query_string::{decode, encode, url_decode, url_encode, QueryString};

fn qs(pairs: &[(&str, &str)]) -> QueryString {
    QueryString::from(
        pairs
            .iter()
            .map(|(k, v)| (k.as_bytes().to_vec(), v.as_bytes().to_vec()))
            .collect(),
    )
}

#[test]
fn query_string_test_url_decode() {
    assert_eq!(url_decode("h%E2%97%8Bllow").unwrap(), b"h\xE2\x97\x8Bllow");
    assert_eq!(url_decode("hello%20world").unwrap(), b"hello world");

    // unterminated byte sequence
    assert!(url_decode("20%").is_err());
}

#[test]
fn query_string_test_url_encode() {
    assert_eq!(url_encode(Vec::from("hello world")), b"hello%20world");
    assert_eq!(url_encode(Vec::from("h○llow")), b"h%E2%97%8Bllow");
}

#[test]
fn query_string_test_decode() {
    // standard
    assert_eq!(decode("a=b&c=d"), Ok(qs(&[("a", "b"), ("c", "d")])));
    // url escape
    assert_eq!(decode("w%20w=%20%20"), Ok(qs(&[("w w", "  ")])));

    // no key
    assert!(decode("a").is_err());
    // no second half
    assert!(decode("a=b&").is_err());
}

#[test]
fn query_string_test_encode() {
    let enc = encode(qs(&[("a", "b"), ("c", "d")]));

    // either order would do
    assert!(enc == b"a=b&c=d" || enc == b"c=d&a=b");
    assert_eq!(&b"w%20w=%20%20"[..], encode(qs(&[("w w", "  ")])));
}

#[test]
fn http_test_url_decode() {
    assert_eq!(url_decode("h%E2%97%8Bllow"), Ok("h○llow".as_bytes().to_vec()));
    assert_eq!(url_decode("hello%20world"), Ok("hello world".as_bytes().to_vec()));
}

#[test]
fn http_test_url_encode() {
    assert_eq!(url_encode("hello world".as_bytes().to_vec()), "hello%20world".as_bytes());
    assert_eq!(url_encode("h○llow".as_bytes().to_vec()), "h%E2%97%8Bllow".as_bytes());
}

#[test]
fn http_test_decode() {
    // standard
    assert_eq!(decode("a=b&c=d"), Ok(qs(&[("a", "b"), ("c", "d")])));
    // url escape
    assert_eq!(decode("w%20w=%20%20"), Ok(qs(&[("w w", "  ")])));

    // no key
    assert!(decode("a").is_err());
    // no second half
    assert!(decode("a=b&").is_err());
}

#[test]
fn http_test_encode() {
    let text = String::from_utf8(encode(qs(&[("a", "b"), ("c", "d")]))).unwrap();
    assert!(matches!(text.as_str(), "a=b&c=d" | "c=d&a=b"));
    assert_eq!("w%20w=%20%20".as_bytes(), encode(qs(&[("w w", "  ")])));
}

#[test]
fn query_string_escapes_have_two_digits() {
    assert_eq!(url_encode(vec![0x0a, 0x00, 0xff, b'%']), b"%0A%00%FF%25");
    assert_eq!(url_encode(b"aZ09_-.~".to_vec()), b"aZ09_-.~");
}

#[test]
fn query_string_decode_undoes_encode() {
    let all: Vec<u8> = (0..=255u8).collect();
    assert_eq!(url_decode(std::str::from_utf8(&url_encode(all.clone())).unwrap()), Ok(all));
}

#[test]
fn query_string_escape_digits() {
    assert_eq!(url_decode("%fF"), Ok(vec![255]));
    assert_eq!(url_decode("%00%0a%A0%aF"), Ok(vec![0, 10, 160, 175]));
    assert_eq!(url_decode("a%41b"), Ok(b"aAb".to_vec()));
    // only hexadecimal digits stand behind a percent sign
    assert_eq!(url_decode("%0g"), Err(()));
    assert_eq!(url_decode("%1g"), Err(()));
    assert_eq!(url_decode("%g0"), Err(()));
    assert_eq!(url_decode("%0G"), Err(()));
    assert_eq!(url_decode("%zz"), Err(()));
    assert_eq!(url_decode("%ZZ"), Err(()));
    assert_eq!(url_decode("%2"), Err(()));
    assert_eq!(url_decode("%"), Err(()));
    assert_eq!(url_decode("20%"), Err(()));
    assert_eq!(url_decode("%-1"), Err(()));
    assert_eq!(url_decode("%%41"), Err(()));
    assert_eq!(url_decode("% 41"), Err(()));
}

#[test]
fn query_string_with_a_bad_escape_is_refused() {
    assert!(decode("a=%0g").is_err());
    assert!(decode("%zz=b").is_err());
    assert_eq!(decode("a=%0f").map(|q| q.len()), Ok(1));
}

#[test]
fn query_string_later_pair_wins() {
    assert_eq!(decode("a=1&b=2&a=3"), Ok(qs(&[("a", "3"), ("b", "2")])));
    assert_eq!(decode("a=b=c"), Ok(qs(&[("a", "b=c")])));
    assert_eq!(decode("=").map(|q| q.len()), Ok(1));
    assert!(decode("").is_err());
    assert!(decode("a=%zz").is_err());
}

#[test]
fn query_string_remove_takes_the_pair_out() {
    let mut query = qs(&[("a", "b"), ("c", "d")]);
    assert_eq!(query.remove("a"), Some(b"b".to_vec()));
    assert_eq!(query.remove("a"), None);
    assert_eq!(query.len(), 1);
    assert_eq!(encode(query), b"c=d");
}
