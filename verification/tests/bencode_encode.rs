use bt_tracker::bencode::{decode_vec, encode, Data, Dictionary};

fn text(s: &str) -> Data {
    Data::Bytes(Vec::from(s))
}

fn list(items: Vec<Data>) -> Data {
    Data::List(items)
}

fn dict(pairs: Vec<(&str, Data)>) -> Data {
    Data::Dict(Dictionary::from(pairs))
}

#[test]
fn test_encode_bytes() {
    assert_eq!(encode(text("")), b"0:");
    assert_eq!(encode(text("spam")), b"4:spam");
}

#[test]
fn encode_test_encode_int() {
    assert_eq!(encode(Data::Int(3)), b"i3e");
    assert_eq!(encode(Data::UInt(3)), b"i3e");
    assert_eq!(encode(Data::Int(-3)), b"i-3e");
    assert_eq!(encode(Data::Int(0)), b"i0e");
}

#[test]
fn encode_test_encode_list() {
    assert_eq!(encode(list(vec![text("spam"), text("eggs")])), b"l4:spam4:eggse");
    assert_eq!(encode(Data::List(vec![])), b"le");
}

#[test]
fn encode_test_encode_dict() {
    assert_eq!(
        encode(dict(vec![("cow", text("moo")), ("spam", text("eggs"))])),
        b"d3:cow3:moo4:spam4:eggse"
    );

    assert_eq!(
        encode(dict(vec![("spam", list(vec![text("a"), text("b")]))])),
        b"d4:spaml1:a1:bee"
    );

    assert_eq!(
        encode(dict(vec![
            ("publisher", text("bob")),
            ("publisher-webpage", text("www.example.com")),
            ("publisher.location", text("home"))
        ])),
        &b"d9:publisher3:bob17:publisher-webpage15:www.example.com18:publisher.location4:homee"[..]
    );

    assert_eq!(encode(dict(vec![])), b"de");
}

#[test]
fn encode_integer_extremes() {
    assert_eq!(encode(Data::UInt(u64::MAX)), b"i18446744073709551615e");
    assert_eq!(encode(Data::Int(i64::MIN)), b"i-9223372036854775808e");
    assert_eq!(encode(Data::Int(i64::MAX)), b"i9223372036854775807e");
    assert_eq!(encode(Data::UInt(10)), b"i10e");
}

#[test]
fn encode_long_byte_string_length() {
    let bytes = vec![7u8; 123];
    let mut expected = b"123:".to_vec();
    expected.extend_from_slice(&bytes);
    assert_eq!(encode(Data::Bytes(bytes)), expected);
}

#[test]
fn encode_orders_keys_whatever_the_insertion_order() {
    let forward = dict(vec![("cow", text("moo")), ("spam", text("eggs"))]);
    let backward = dict(vec![("spam", text("eggs")), ("cow", text("moo"))]);
    assert_eq!(forward, backward);
    assert_eq!(encode(backward), b"d3:cow3:moo4:spam4:eggse");
}

#[test]
fn decode_undoes_encode() {
    let value = dict(vec![
        ("numbers", list(vec![Data::UInt(0), Data::Int(-17), Data::UInt(u64::MAX), Data::Int(i64::MIN)])),
        ("bytes", Data::Bytes(vec![0, 255, b'e', b':', b'3'])),
        ("nested", dict(vec![("b", list(vec![])), ("a", dict(vec![]))])),
        ("", text("empty key")),
    ]);
    let wire = encode(value.clone());
    assert_eq!(decode_vec(wire), Ok(value));
}

#[test]
fn integers_compare_by_number() {
    assert_eq!(Data::Int(3), Data::UInt(3));
    assert_eq!(Data::UInt(3), Data::Int(3));
    assert_ne!(Data::Int(-3), Data::UInt(3));
    assert_ne!(Data::UInt(u64::MAX), Data::Int(-1));
    assert_ne!(text("3"), Data::UInt(3));
    assert_eq!(Data::End, Data::End);
}
