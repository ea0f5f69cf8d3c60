use bt_tracker::bencode::{encode, Data, Dictionary, FromData, FromDataError};

fn text(s: &str) -> Data {
    Data::from_text(s)
}

#[test]
fn data_builders() {
    assert_eq!(Data::from_text("spam"), Data::Bytes(b"spam".to_vec()));
    assert_eq!(Data::from_bytes(&[0, 255]), Data::Bytes(vec![0, 255]));
    assert!(matches!(Data::from(3u64), Data::UInt(3)));
    assert!(matches!(Data::from(-3i64), Data::Int(-3)));
    assert_eq!(Data::from(vec![1u8, 2]), Data::Bytes(vec![1, 2]));
    assert_eq!(Data::from(Dictionary::new()), Data::Dict(Dictionary::new()));
    assert!(matches!(Data::from("spam"), Data::Bytes(b) if b == b"spam"));
    assert!(matches!(Data::from(String::from("h\u{25cb}")), Data::Bytes(b) if b == b"h\xE2\x97\x8B"));
    assert!(matches!(Data::from(&[1u8, 2, 3][..]), Data::Bytes(b) if b == [1, 2, 3]));
    assert!(matches!(Data::from([6u8; 6]), Data::Bytes(b) if b == [6; 6]));
    assert!(matches!(Data::from([20u8; 20]), Data::Bytes(b) if b == [20; 20]));
    assert!(matches!(Data::from([32u8; 32]), Data::Bytes(b) if b == [32; 32]));
    assert!(matches!(Data::from(vec![Data::UInt(1)]), Data::List(l) if l.len() == 1));
    assert_eq!(encode(Data::from("spam")), b"4:spam");
    assert_eq!(encode(Data::from(vec![Data::from("a"), Data::from(2u64)])), b"l1:ai2ee");
}

#[test]
fn insert_returns_what_was_bound() {
    let mut dict = Dictionary::new();
    assert_eq!(dict.insert(b"k".to_vec(), Data::UInt(1)), None);
    assert_eq!(dict.insert(b"k".to_vec(), Data::UInt(2)), Some(Data::UInt(1)));
    assert_eq!(dict.insert_str("a", Data::UInt(3)), None);
    assert_eq!(dict.len(), 2);
    assert_eq!(dict.key_at(0), b"a");
    assert_eq!(dict.value_at(1), &Data::UInt(2));
    assert_eq!(encode(Data::Dict(dict)), b"d1:ai3e1:ki2ee");
}

#[test]
fn insert_some_binds_only_what_is_there() {
    let mut dict = Dictionary::new();
    assert_eq!(dict.insert_some(b"a".to_vec(), None), None);
    assert_eq!(dict.len(), 0);
    assert_eq!(dict.insert_some(b"a".to_vec(), Some(Data::UInt(1))), None);
    assert_eq!(dict.insert_some(b"a".to_vec(), Some(Data::UInt(2))), Some(Data::UInt(1)));
    assert_eq!(dict.insert_some(b"a".to_vec(), None), None);
    assert_eq!(dict, Dictionary::from(vec![("a", Data::UInt(2))]));
}

#[test]
fn keys_order_by_bytes() {
    let mut dict = Dictionary::new();
    for key in [&b"b"[..], b"", b"ab", b"a", b"\xff", b"B", b"a\x00", b"b"] {
        dict.insert(key.to_vec(), Data::UInt(0));
    }
    let keys: Vec<Vec<u8>> = dict.into_entries().into_iter().map(|(key, _)| key).collect();
    assert_eq!(
        keys,
        vec![
            b"".to_vec(),
            b"B".to_vec(),
            b"a".to_vec(),
            b"a\x00".to_vec(),
            b"ab".to_vec(),
            b"b".to_vec(),
            b"\xff".to_vec()
        ]
    );
}

#[test]
fn from_lets_the_later_pair_win() {
    let dict = Dictionary::from(vec![("k", Data::UInt(1)), ("a", Data::UInt(2)), ("k", Data::UInt(3))]);
    assert_eq!(encode(Data::Dict(dict)), b"d1:ai2e1:ki3ee");
}

#[test]
fn append_moves_everything_over() {
    let mut left = Dictionary::from(vec![("a", Data::UInt(1)), ("b", Data::UInt(2))]);
    let mut right = Dictionary::from(vec![("b", Data::UInt(3)), ("c", Data::UInt(4))]);
    left.append(&mut right);
    assert_eq!(right.len(), 0);
    assert_eq!(
        left,
        Dictionary::from(vec![("a", Data::UInt(1)), ("b", Data::UInt(3)), ("c", Data::UInt(4))])
    );
}

#[test]
fn remove_takes_the_entry_out() {
    let mut dict = Dictionary::from(vec![("a", Data::UInt(1)), ("b", text("x"))]);
    assert_eq!(dict.remove("b"), Some(text("x")));
    assert_eq!(dict.remove("b"), None);
    assert_eq!(dict.remove_key(b"a"), Some(Data::UInt(1)));
    assert_eq!(dict.len(), 0);
}

#[test]
fn remove_as_converts_the_value() {
    let mut dict = Dictionary::from(vec![
        ("n", Data::Int(5)),
        ("s", text("x")),
        ("l", Data::List(vec![Data::UInt(1), Data::UInt(2)])),
        ("m", Data::List(vec![Data::UInt(1), text("no number")])),
        ("big", Data::UInt(u64::MAX)),
        ("neg", Data::Int(-1)),
    ]);
    assert_eq!(dict.remove_as::<u64>("n"), Ok(5));
    // the entry is gone
    assert_eq!(dict.remove_as::<u64>("n"), Err(FromDataError));
    assert_eq!(dict.remove_as::<u64>("s"), Err(FromDataError));
    assert_eq!(dict.remove_as::<u64>("s"), Err(FromDataError));
    assert_eq!(dict.remove_as::<Vec<u64>>("l"), Ok(vec![1, 2]));
    assert_eq!(dict.remove_as::<Vec<u64>>("m"), Err(FromDataError));
    assert_eq!(dict.remove_as::<i64>("big"), Err(FromDataError));
    assert_eq!(dict.remove_as::<u64>("neg"), Err(FromDataError));
    assert_eq!(dict.len(), 0);
}

#[test]
fn remove_as_opt_lets_a_key_be_missing() {
    let mut dict = Dictionary::from(vec![("n", Data::UInt(5)), ("s", text("x"))]);
    assert_eq!(dict.remove_as_opt::<u64>("n"), Ok(Some(5)));
    assert_eq!(dict.remove_as_opt::<u64>("n"), Ok(None));
    assert_eq!(dict.remove_as_opt::<u64>("s"), Err(FromDataError));
    assert_eq!(dict.remove_as_opt::<Vec<u8>>("s"), Ok(None));
}

#[test]
fn conversions_from_values() {
    assert_eq!(u64::from_data(Data::UInt(7)), Ok(7));
    assert_eq!(u64::from_data(Data::Int(7)), Ok(7));
    assert_eq!(u64::from_data(Data::Int(-7)), Err(FromDataError));
    assert_eq!(i64::from_data(Data::Int(-7)), Ok(-7));
    assert_eq!(i64::from_data(Data::UInt(7)), Ok(7));
    assert_eq!(i64::from_data(Data::UInt(1 << 63)), Err(FromDataError));
    assert_eq!(Vec::<u8>::from_data(text("x")), Ok(b"x".to_vec()));
    assert_eq!(Vec::<u8>::from_data(Data::UInt(1)), Err(FromDataError));
    assert_eq!(Dictionary::from_data(Data::Dict(Dictionary::new())), Ok(Dictionary::new()));
    assert_eq!(Dictionary::from_data(Data::List(vec![])), Err(FromDataError));
    assert_eq!(
        Vec::<Vec<u8>>::from_data(Data::List(vec![text("a"), text("b"), text("c")])),
        Ok(vec![b"a".to_vec(), b"b".to_vec(), b"c".to_vec()])
    );
    assert_eq!(Vec::<u64>::from_data(Data::List(vec![])), Ok(vec![]));
    assert_eq!(Vec::<u64>::from_data(Data::End), Err(FromDataError));
}

#[test]
fn copies_are_equal() {
    let value = Data::Dict(Dictionary::from(vec![
        ("list", Data::List(vec![Data::UInt(1), Data::Int(-1), text("x")])),
        ("dict", Data::Dict(Dictionary::from(vec![("k", Data::End)]))),
    ]));
    let copy = value.clone();
    assert_eq!(copy, value);
    assert!(matches!(Data::Int(3).clone(), Data::Int(3)));
}

#[test]
fn values_of_different_kinds_differ() {
    assert_ne!(Data::List(vec![]), Data::Dict(Dictionary::new()));
    assert_ne!(Data::List(vec![Data::UInt(1)]), Data::List(vec![Data::UInt(1), Data::UInt(2)]));
    assert_ne!(Data::List(vec![Data::UInt(1)]), Data::List(vec![Data::UInt(2)]));
    assert_ne!(text("a"), text("b"));
    assert_ne!(
        Dictionary::from(vec![("a", Data::UInt(1))]),
        Dictionary::from(vec![("b", Data::UInt(1))])
    );
    assert_ne!(
        Dictionary::from(vec![("a", Data::UInt(1))]),
        Dictionary::from(vec![("a", Data::UInt(2))])
    );
    assert_ne!(Data::End, Data::UInt(0));
}
