use bt_tracker::bencode::encode;
use bt_tracker::metainfo::{FileInfo, Info};
use bt_tracker::torrent::{announce_url, hash_pieces, info_hash, single_file_info, torrent_for, PIECE_LENGTH};

const ABC: [u8; 20] = [
    0xa9, 0x99, 0x3e, 0x36, 0x47, 0x06, 0x81, 0x6a, 0xba, 0x3e, 0x25, 0x71, 0x78, 0x50, 0xc2, 0x6c,
    0x9c, 0xd0, 0xd8, 0x9d,
];

#[test]
fn pieces_are_sha1_digests() {
    assert_eq!(hash_pieces(b"abc", 16384), ABC);
    assert_eq!(hash_pieces(b"", 16384), b"");
    // two pieces of three bytes
    let mut twice = ABC.to_vec();
    twice.extend_from_slice(&ABC);
    assert_eq!(hash_pieces(b"abcabc", 3), twice);
}

#[test]
fn last_piece_is_short() {
    let content = vec![5u8; PIECE_LENGTH + 1];
    let mut expected = sha1_smol::Sha1::from(&content[..PIECE_LENGTH]).digest().bytes().to_vec();
    expected.extend_from_slice(&sha1_smol::Sha1::from(&content[PIECE_LENGTH..]).digest().bytes());
    assert_eq!(hash_pieces(&content, PIECE_LENGTH), expected);
    let exact = vec![5u8; PIECE_LENGTH];
    assert_eq!(hash_pieces(&exact, PIECE_LENGTH).len(), 20);
}

#[test]
fn info_of_one_file() {
    let info = single_file_info(b"abc.txt".to_vec(), b"abc");
    assert_eq!(
        info,
        Info {
            piece_length: 16384,
            pieces: ABC.to_vec(),
            private: Some(true),
            file_info: FileInfo::Single { length: 3, md5sum: None, name: b"abc.txt".to_vec() },
        }
    );
    let wire = encode(info.to_data());
    assert_eq!(info_hash(&info), Some(sha1_smol::Sha1::from(&wire).digest().bytes()));
}

#[test]
fn info_hash_of_known_bytes() {
    // the info whose wire form is known by heart
    let info = Info {
        piece_length: 0,
        pieces: vec![],
        private: None,
        file_info: FileInfo::Single { length: 0, md5sum: None, name: vec![] },
    };
    assert_eq!(
        encode(info.to_data()),
        &b"d6:lengthi0e4:name0:12:piece lengthi0e6:pieces0:e"[..]
    );
    let digest = info_hash(&info).unwrap();
    assert_eq!(
        digest,
        sha1_smol::Sha1::from(&b"d6:lengthi0e4:name0:12:piece lengthi0e6:pieces0:e"[..])
            .digest()
            .bytes()
    );
    assert_ne!(digest, [0u8; 20]);
}

#[test]
fn torrent_names_the_tracker() {
    assert_eq!(announce_url(b"127.0.0.1", 3000), b"http://127.0.0.1:3000/announce");
    let info = single_file_info(b"f".to_vec(), b"abc");
    let meta = torrent_for(info.clone(), b"example.org", 80);
    assert_eq!(meta.info, info);
    assert_eq!(meta.announce, b"http://example.org:80/announce");
    assert_eq!(meta.announce_list, None);
    assert_eq!(meta.comment, None);
    assert_eq!(meta.created_by, None);
    assert_eq!(meta.creation_date, None);
    assert_eq!(meta.encoding, None);
}

#[test]
fn pieces_hold_twenty_bytes_for_each_piece() {
    for (length, count) in [
        (0usize, 0usize),
        (1, 1),
        (PIECE_LENGTH - 1, 1),
        (PIECE_LENGTH, 1),
        (PIECE_LENGTH + 1, 2),
        (2 * PIECE_LENGTH, 2),
        (2 * PIECE_LENGTH + 1, 3),
    ] {
        let content = vec![1u8; length];
        assert_eq!(hash_pieces(&content, PIECE_LENGTH).len(), 20 * count);
        assert_eq!(single_file_info(b"f".to_vec(), &content).pieces.len(), 20 * count);
    }
    assert_eq!(hash_pieces(b"abcdefg", 3).len(), 60);
    assert_eq!(hash_pieces(b"abcdefg", 7).len(), 20);
    assert_eq!(hash_pieces(b"abcdefg", 1).len(), 140);
}
