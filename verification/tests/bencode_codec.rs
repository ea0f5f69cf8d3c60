use bt_tracker::bencode::{decode, encode, ByteCursor, Data, DataParseError, Dictionary};

fn text(s: &str) -> Data {
    Data::Bytes(s.as_bytes().to_vec())
}

fn list(items: Vec<Data>) -> Data {
    Data::List(items)
}

fn dict(pairs: Vec<(&str, Data)>) -> Data {
    let mut map = Dictionary::new();
    for (key, value) in pairs {
        map.insert(key.as_bytes().to_vec(), value);
    }
    Data::Dict(map)
}

fn read(input: &str) -> Result<Data, DataParseError> {
    decode(&mut ByteCursor::new(input.as_bytes().to_vec()))
}

#[test]
fn test_encode_string() {
    assert_eq!(encode(text("spam")), b"4:spam");
    assert_eq!(encode(text("")), b"0:");
}

#[test]
fn bencode_test_encode_int() {
    assert_eq!(encode(Data::Int(3)), b"i3e");
    assert_eq!(encode(Data::UInt(3)), b"i3e");
    assert_eq!(encode(Data::Int(-3)), b"i-3e");
    assert_eq!(encode(Data::Int(0)), b"i0e");
}

#[test]
fn bencode_test_encode_list() {
    assert_eq!(encode(list(vec![text("spam"), text("eggs")])), b"l4:spam4:eggse");
    assert_eq!(encode(list(vec![])), b"le");
}

#[test]
fn bencode_test_encode_dict() {
    assert_eq!(
        encode(dict(vec![("cow", text("moo")), ("spam", text("eggs"))])),
        b"d3:cow3:moo4:spam4:eggse"
    );

    assert_eq!(
        encode(dict(vec![("spam", list(vec![text("a"), text("b")]))])),
        b"d4:spaml1:a1:bee"
    );

    assert_eq!(
        encode(dict(vec![
            ("publisher", text("bob")),
            ("publisher-webpage", text("www.example.com")),
            ("publisher.location", text("home"))
        ])),
        &b"d9:publisher3:bob17:publisher-webpage15:www.example.com18:publisher.location4:homee"[..]
    );

    assert_eq!(encode(dict(vec![])), b"de");
}

#[test]
fn bencode_test_decode_int() {
    assert_eq!(read("i3e"), Ok(Data::Int(3)));
    assert_eq!(read("i3e"), Ok(Data::UInt(3)));
    assert_eq!(read(&format!("i{}e", u64::MAX)), Ok(Data::UInt(u64::MAX)));
    assert_eq!(read(&format!("i{}e", i64::MAX)), Ok(Data::Int(i64::MAX)));
    assert_eq!(read(&format!("i{}e", i64::MIN)), Ok(Data::Int(i64::MIN)));
    assert_eq!(read("i-3e"), Ok(Data::Int(-3)));
    assert_eq!(read("i0e"), Ok(Data::Int(0)));

    // empty
    assert!(read("ie").is_err());

    // just a negative sign
    assert!(read("i-e").is_err());

    // negative sign in invalid place
    assert!(read("i1-e").is_err());
}

#[test]
fn bencode_test_decode_str() {
    assert_eq!(read("4:four"), Ok(text("four")));
    assert_eq!(read("0:"), Ok(text("")));

    // not enough length
    assert!(read("4:123").is_err());

    // invalid length marker
    assert!(read("4x:1234").is_err());
}

#[test]
fn bencode_test_decode_list() {
    assert_eq!(read("l4:spam4:eggse"), Ok(list(vec![text("spam"), text("eggs")])));
    assert_eq!(read("le"), Ok(list(vec![])));

    // no ending
    assert!(read("lle").is_err());

    // skip over end markers in string
    assert!(read("l4:eeee").is_err());

    // invalid inner data
    assert!(read("l0:a0:e").is_err());
}

#[test]
fn bencode_test_decode_dict() {
    assert_eq!(
        read("d3:cow3:moo4:spam4:eggse"),
        Ok(dict(vec![("cow", text("moo")), ("spam", text("eggs"))]))
    );

    assert_eq!(
        read("d4:spaml1:a1:bee"),
        Ok(dict(vec![("spam", list(vec![text("a"), text("b")]))]))
    );

    assert_eq!(
        read("d9:publisher3:bob17:publisher-webpage15:www.example.com18:publisher.location4:homee"),
        Ok(dict(vec![
            ("publisher", text("bob")),
            ("publisher-webpage", text("www.example.com")),
            ("publisher.location", text("home"))
        ]))
    );

    assert_eq!(read("de"), Ok(dict(vec![])));

    // no ending
    assert!(read("dde").is_err());

    // duplicate keys
    assert!(read("d1:a3:dup1:a3:nooe").is_err());

    // non-string as key
    assert!(read("di2e3:vale").is_err());

    // invalid inner data
    assert!(read("d0:a0:e").is_err());
}
