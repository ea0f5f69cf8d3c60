use bt_tracker::bencode::{decode_vec, Data, DataParseError, Dictionary};

fn text(s: &str) -> Data {
    Data::Bytes(Vec::from(s))
}

fn list(items: Vec<Data>) -> Data {
    Data::List(items)
}

fn dict(pairs: Vec<(&str, Data)>) -> Data {
    Data::Dict(Dictionary::from(pairs))
}

fn read(input: &str) -> Result<Data, DataParseError> {
    decode_vec(Vec::from(input))
}

#[test]
fn decode_test_decode_int() {
    assert_eq!(read("i3e"), Ok(Data::Int(3)));
    assert_eq!(read("i3e"), Ok(Data::UInt(3)));
    assert_eq!(decode_vec(Vec::from(format!("i{}e", u64::MAX).as_bytes())), Ok(Data::UInt(u64::MAX)));
    assert_eq!(decode_vec(Vec::from(format!("i{}e", i64::MAX).as_bytes())), Ok(Data::Int(i64::MAX)));
    assert_eq!(decode_vec(Vec::from(format!("i{}e", i64::MIN).as_bytes())), Ok(Data::Int(i64::MIN)));
    assert_eq!(read("i-3e"), Ok(Data::Int(-3)));
    assert_eq!(read("i0e"), Ok(Data::Int(0)));

    // empty
    assert!(read("ie").is_err());

    // just a negative sign
    assert!(read("i-e").is_err());

    // negative sign in invalid place
    assert!(read("i1-e").is_err());
}

#[test]
fn decode_test_decode_str() {
    assert_eq!(read("4:four"), Ok(text("four")));
    assert_eq!(read("0:"), Ok(text("")));

    // not enough length
    assert!(read("4:123").is_err());

    // invalid length marker
    assert!(read("4x:1234").is_err());
}

#[test]
fn decode_test_decode_list() {
    assert_eq!(read("l4:spam4:eggse"), Ok(list(vec![text("spam"), text("eggs")])));
    assert_eq!(read("le"), Ok(list(vec![])));

    // no ending
    assert!(read("lle").is_err());

    // skip over end markers in string
    assert!(read("l4:eeee").is_err());

    // invalid inner data
    assert!(read("l0:a0:e").is_err());
}

#[test]
fn decode_test_decode_dict() {
    assert_eq!(
        read("d3:cow3:moo4:spam4:eggse"),
        Ok(dict(vec![("cow", text("moo")), ("spam", text("eggs"))]))
    );

    assert_eq!(
        read("d4:spaml1:a1:bee"),
        Ok(dict(vec![("spam", list(vec![text("a"), text("b")]))]))
    );

    assert_eq!(
        read("d9:publisher3:bob17:publisher-webpage15:www.example.com18:publisher.location4:homee"),
        Ok(dict(vec![
            ("publisher", text("bob")),
            ("publisher-webpage", text("www.example.com")),
            ("publisher.location", text("home"))
        ]))
    );

    assert_eq!(read("de"), Ok(dict(vec![])));

    // no ending
    assert!(read("dde").is_err());

    // duplicate keys
    assert!(read("d1:a3:dup1:a3:nooe").is_err());

    // non-string as key
    assert!(read("di2e3:vale").is_err());

    // invalid inner data
    assert!(read("d0:a0:e").is_err());
}

#[test]
fn decode_reports_each_fault() {
    assert_eq!(read(""), Err(DataParseError("Empty string.")));
    assert_eq!(read("4x:1234"), Err(DataParseError("Unexpected non-number.")));
    assert_eq!(read("4:123"), Err(DataParseError("Unexpected end of data.")));
    assert_eq!(
        read("99999999999999999999999999:a"),
        Err(DataParseError("Unexpected end of data."))
    );
    assert_eq!(read("ie"), Err(DataParseError("Unexpected non-digit character")));
    assert_eq!(read("i"), Err(DataParseError("Unexpected non-digit character")));
    assert_eq!(read("i-e"), Err(DataParseError("Unexpected non-digit character.")));
    assert_eq!(read("i1-e"), Err(DataParseError("Unexpected non-digit character.")));
    assert_eq!(read("i12"), Err(DataParseError("Unexpected non-digit character.")));
    assert_eq!(
        read("i18446744073709551616e"),
        Err(DataParseError("Integer overflow (unsigned 64-bit)"))
    );
    assert_eq!(
        read("i-9223372036854775809e"),
        Err(DataParseError("Integer overflow (signed 64-bit)."))
    );
    assert_eq!(read("di2e3:vale"), Err(DataParseError("Unexpected non-key type.")));
    assert_eq!(read("d1:ae"), Err(DataParseError("Unexpected end of dictionary.")));
    assert_eq!(read("d1:a3:dup1:a3:nooe"), Err(DataParseError("Duplicate key in dictionary.")));
    assert_eq!(read("x"), Err(DataParseError("Unexpected data type.")));
    assert_eq!(read("e"), Err(DataParseError("Unexpected data type.")));
    assert_eq!(read("lle"), Err(DataParseError("Empty string.")));
}

#[test]
fn decode_integer_boundaries() {
    assert_eq!(read("i18446744073709551615e"), Ok(Data::UInt(u64::MAX)));
    assert_eq!(read("i-9223372036854775808e"), Ok(Data::Int(i64::MIN)));
    assert!(matches!(read("i5e"), Ok(Data::UInt(5))));
    assert!(matches!(read("i-5e"), Ok(Data::Int(-5))));
    // leading zeros and a negative zero are read as they stand
    assert_eq!(read("i007e"), Ok(Data::UInt(7)));
    assert!(matches!(read("i-0e"), Ok(Data::UInt(0))));
}

#[test]
fn decode_length_prefix_without_colon() {
    assert_eq!(read("0"), Ok(text("")));
    assert_eq!(read("3"), Err(DataParseError("Unexpected end of data.")));
    assert_eq!(read("03:abc"), Ok(text("abc")));
}

#[test]
fn decode_sorts_dictionary_keys() {
    assert_eq!(
        read("d4:spam4:eggs3:cow3:mooe"),
        Ok(dict(vec![("cow", text("moo")), ("spam", text("eggs"))]))
    );
}

#[test]
fn decode_ignores_what_follows_the_value() {
    assert_eq!(read("i3e4:rest"), Ok(Data::UInt(3)));
}

#[test]
fn parse_error_tells_its_reason() {
    assert_eq!(read("").unwrap_err().message(), "Empty string.");
    assert_eq!(read("x").unwrap_err().message(), "Unexpected data type.");
}
