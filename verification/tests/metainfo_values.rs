use bt_tracker::bencode::{encode, try_decode_from_str, FromDataError};
use bt_tracker::metainfo::{File, FileInfo, Info, MetaInfo};

fn strings(items: &[&str]) -> Vec<Vec<u8>> {
    items.iter().map(|s| s.as_bytes().to_vec()).collect()
}

#[test]
fn metainfo_test_file_into() {
    // without md5sum
    assert_eq!(
        encode(
            File {
                length: 40,
                md5sum: None,
                path: strings(&["20", "30"]),
            }
            .to_data()
        ),
        b"d6:lengthi40e4:pathl2:202:30ee"
    );

    // with
    assert_eq!(
        encode(
            File {
                length: 25,
                md5sum: Some([b'a'; 32]),
                path: strings(&["usr", "bin", "env", "rustc"]),
            }
            .to_data()
        ),
        &b"d6:lengthi25e6:md5sum32:aaaaaaaaaaaaaaaaaaaaaaaaaaaaaaaa4:pathl3:usr3:bin3:env5:rustcee"[..]
    );
}

#[test]
fn metainfo_test_file_from() {
    assert_eq!(
        try_decode_from_str("d6:lengthi40e4:pathl2:202:30ee"),
        Ok(Ok(File {
            length: 40,
            md5sum: None,
            path: strings(&["20", "30"]),
        }))
    );

    assert_eq!(
        try_decode_from_str(
            "d6:lengthi25e6:md5sum32:aaaaaaaaaaaaaaaaaaaaaaaaaaaaaaaa4:pathl3:usr3:bin3:env5:rustcee"
        ),
        Ok(Ok(File {
            length: 25,
            md5sum: Some([b'a'; 32]),
            path: strings(&["usr", "bin", "env", "rustc"]),
        }))
    );

    // md5 of length 31 (Ok(Err(_))
    assert!(try_decode_from_str::<File>(
        "d6:lengthi25e6:md5sum31:aaaaaaaaaaaaaaaaaaaaaaaaaaaaaaa4:pathl3:usr3:bin3:env5:rustcee"
    )
    .unwrap()
    .is_err());

    // missing stuff
    assert!(try_decode_from_str::<File>("de").unwrap().is_err());
}

#[test]
fn metainfo_test_fileinfo_into() {
    // single without md5sum
    assert_eq!(
        encode(
            FileInfo::Single {
                length: 5,
                name: "cats.jpeg".into(),
                md5sum: None
            }
            .to_data()
        ),
        b"d6:lengthi5e4:name9:cats.jpege"
    );

    // single with md5sum
    assert_eq!(
        encode(
            FileInfo::Single {
                length: 0,
                name: "cows and cats".into(),
                md5sum: Some([b'5'; 32])
            }
            .to_data()
        ),
        &b"d6:lengthi0e6:md5sum32:555555555555555555555555555555554:name13:cows and catse"[..]
    );

    // minimal multi
    assert_eq!(
        encode(
            FileInfo::Multi {
                name: "mt".into(),
                files: vec![]
            }
            .to_data()
        ),
        b"d5:filesle4:name2:mte"
    );

    // substantial multi
    assert_eq!(
        encode(
            FileInfo::Multi {
                name: "hulking".into(),
                files: vec![
                    // one with a md5
                    File {
                        length: 2,
                        md5sum: Some([b'2'; 32]),
                        path: vec!["one".into(), "two".into()],
                    },
                    // one without, and with no path
                    File {
                        length: 4,
                        md5sum: None,
                        path: vec![],
                    }
                ],
            }
            .to_data()
        ),
        &b"d5:filesld6:lengthi2e6:md5sum32:222222222222222222222222222222224:pathl3:one3:twoeed6:lengthi4e4:pathleee4:name7:hulkinge"[..]
    );
}

#[test]
fn metainfo_test_fileinfo_from() {
    // single without md5sum
    assert_eq!(
        try_decode_from_str("d6:lengthi5e4:name9:cats.jpege"),
        Ok(Ok(FileInfo::Single {
            length: 5,
            name: "cats.jpeg".into(),
            md5sum: None
        }))
    );

    // single with md5sum
    assert_eq!(
        try_decode_from_str(
            "d6:lengthi0e6:md5sum32:555555555555555555555555555555554:name13:cows and catse"
        ),
        Ok(Ok(FileInfo::Single {
            length: 0,
            name: "cows and cats".into(),
            md5sum: Some([b'5'; 32])
        }))
    );

    // minimal multi
    assert_eq!(
        try_decode_from_str("d5:filesle4:name2:mte"),
        Ok(Ok(FileInfo::Multi {
            name: "mt".into(),
            files: vec![]
        })),
    );

    // substantial multi
    assert_eq!(
        try_decode_from_str(
            "d5:filesld6:lengthi2e6:md5sum32:222222222222222222222222222222224:pathl3:one3:twoeed6:lengthi4e4:pathleee4:name7:hulkinge"
        ),
        Ok(Ok(FileInfo::Multi {
            name: "hulking".into(),
            files: vec![
                // one with a md5
                File {
                    length: 2,
                    md5sum: Some([b'2'; 32]),
                    path: vec!["one".into(), "two".into()],
                },
                // one without, and with no path
                File {
                    length: 4,
                    md5sum: None,
                    path: vec![],
                }
            ],
        }))
    );

    // wrong md5 length
    assert!(
        try_decode_from_str::<FileInfo>("d6:lengthi0e6:md5sum0:4:name0:e")
            .unwrap()
            .is_err()
    );

    // bad files
    assert!(
        // length is string
        try_decode_from_str::<FileInfo>("d5:filesld6:length0:4:pathlee4:name8:bad pathee")
            .unwrap()
            .is_err()
    )
}

#[test]
fn metainfo_test_info_into() {
    // private = true, single file
    assert_eq!(
        encode(
            Info {
                piece_length: 20,
                pieces: "12345678901234567890".into(),
                private: Some(true),
                file_info: FileInfo::Single {
                    length: 0,
                    name: "".into(),
                    md5sum: None,
                },
            }
            .to_data()
        ),
        &b"d6:lengthi0e4:name0:12:piece lengthi20e6:pieces20:123456789012345678907:privatei1ee"[..]
    );

    assert_eq!(
        encode(
            Info {
                piece_length: 1,
                pieces: "12345678901234567890".into(),
                private: None,
                file_info: FileInfo::Multi {
                    name: "zamn".into(),
                    files: vec![File {
                        length: 0,
                        md5sum: None,
                        path: strings(&["sbin", "suid", "exploit"]),
                    }]
                }
            }
            .to_data()
        ),
        &b"d5:filesld6:lengthi0e4:pathl4:sbin4:suid7:exploiteee4:name4:zamn12:piece lengthi1e6:pieces20:12345678901234567890e"[..]
    );
}

#[test]
fn metainfo_test_info_from() {
    assert_eq!(
        try_decode_from_str("d6:lengthi0e4:name0:12:piece lengthi0e6:pieces0:e"),
        Ok(Ok(Info {
            piece_length: 0,
            pieces: "".into(),
            private: None,
            file_info: FileInfo::Single {
                length: 0,
                name: "".into(),
                md5sum: None,
            },
        }))
    );

    assert_eq!(
        try_decode_from_str(
            "d5:filesld6:lengthi0e4:pathl4:sbin4:suid7:exploiteee4:name4:zamn12:piece lengthi20e6:pieces20:123456789012345678907:privatei1ee"
        ),
        Ok(Ok(Info {
            piece_length: 20,
            pieces: "12345678901234567890".into(),
            private: Some(true),
            file_info: FileInfo::Multi {
                name: "zamn".into(),
                files: vec![File {
                    length: 0,
                    md5sum: None,
                    path: strings(&["sbin", "suid", "exploit"]),
                }]
            },
        }))
    );
}

#[test]
fn metainfo_test_metainfo_into() {
    // minimal
    assert_eq!(
        encode(
            MetaInfo {
                info: Info {
                    piece_length: 0,
                    pieces: "".into(),
                    private: None,
                    file_info: FileInfo::Single {
                        length: 2,
                        md5sum: None,
                        name: "file".into(),
                    },
                },
                announce: "".into(),
                announce_list: None,
                comment: None,
                created_by: None,
                creation_date: None,
                encoding: None,
            }
            .to_data()
        ),
        &b"d8:announce0:4:infod6:lengthi2e4:name4:file12:piece lengthi0e6:pieces0:ee"[..]
    );

    // all options
    assert_eq!(
        encode(
            MetaInfo {
                info: Info {
                    piece_length: 5,
                    pieces: "123456".into(),
                    private: Some(false),
                    file_info: FileInfo::Multi {
                        files: vec![],
                        name: "folder".into(),
                    }
                },
                announce: "no".into(),
                announce_list: Some(vec!["12345".into()]),
                comment: Some("no comment".into()),
                created_by: Some("me".into()),
                creation_date: Some(0),
                encoding: Some("utf-8".into()),
            }
            .to_data()
        ),
        &b"d8:announce2:no13:announce-listl5:12345e7:comment10:no comment10:created by2:me13:creation datei0e8:encoding5:utf-84:infod5:filesle4:name6:folder12:piece lengthi5e6:pieces6:1234567:privatei0eee"[..]
    );
}

#[test]
fn metainfo_test_metainfo_from() {
    // minimal
    assert_eq!(
        try_decode_from_str(
            "d8:announce0:4:infod6:lengthi2e4:name4:file12:piece lengthi0e6:pieces0:ee"
        ),
        Ok(Ok(MetaInfo {
            info: Info {
                piece_length: 0,
                pieces: "".into(),
                private: None,
                file_info: FileInfo::Single {
                    length: 2,
                    md5sum: None,
                    name: "file".into(),
                },
            },
            announce: "".into(),
            announce_list: None,
            comment: None,
            created_by: None,
            creation_date: None,
            encoding: None,
        }))
    );

    assert_eq!(
        try_decode_from_str(
            "d8:announce2:no13:announce-listl5:12345e7:comment10:no comment10:created by2:me13:creation datei0e8:encoding5:utf-84:infod5:filesle4:name6:folder12:piece lengthi5e6:pieces6:1234567:privatei0eee"
        ),
        Ok(Ok(MetaInfo {
            info: Info {
                piece_length: 5,
                pieces: "123456".into(),
                private: Some(false),
                file_info: FileInfo::Multi {
                    files: vec![],
                    name: "folder".into(),
                }
            },
            announce: "no".into(),
            announce_list: Some(vec!["12345".into()]),
            comment: Some("no comment".into()),
            created_by: Some("me".into()),
            creation_date: Some(0),
            encoding: Some("utf-8".into()),
        }))
    );
}

#[test]
fn metainfo_conversion_fails_on_wrong_shapes() {
    // not a dictionary at all
    assert_eq!(try_decode_from_str::<File>("i3e"), Ok(Err(FromDataError)));
    // a negative length
    assert_eq!(try_decode_from_str::<File>("d6:lengthi-1e4:pathlee"), Ok(Err(FromDataError)));
    // a path that holds a number
    assert_eq!(try_decode_from_str::<File>("d6:lengthi1e4:pathli3eee"), Ok(Err(FromDataError)));
    // a checksum that is no byte string
    assert_eq!(
        try_decode_from_str::<File>("d6:lengthi1e6:md5sumi3e4:pathlee"),
        Ok(Err(FromDataError))
    );
    // private must be a number
    assert_eq!(
        try_decode_from_str::<Info>("d6:lengthi0e4:name0:12:piece lengthi0e6:pieces0:7:private1:1e"),
        Ok(Err(FromDataError))
    );
    // info is missing
    assert_eq!(try_decode_from_str::<MetaInfo>("d8:announce0:e"), Ok(Err(FromDataError)));
    // an optional field of the wrong kind
    assert_eq!(
        try_decode_from_str::<MetaInfo>(
            "d8:announce0:7:commenti1e4:infod6:lengthi2e4:name4:file12:piece lengthi0e6:pieces0:ee"
        ),
        Ok(Err(FromDataError))
    );
}

#[test]
fn metainfo_private_flag_reads_any_number() {
    let info = try_decode_from_str::<Info>(
        "d6:lengthi0e4:name0:12:piece lengthi0e6:pieces0:7:privatei7ee",
    )
    .unwrap()
    .unwrap();
    assert_eq!(info.private, Some(true));
    let info = try_decode_from_str::<Info>(
        "d6:lengthi0e4:name0:12:piece lengthi0e6:pieces0:7:privatei0ee",
    )
    .unwrap()
    .unwrap();
    assert_eq!(info.private, Some(false));
}

#[test]
fn metainfo_unknown_keys_are_ignored() {
    assert_eq!(
        try_decode_from_str("d5:extrai1e6:lengthi40e4:pathl2:202:30ee"),
        Ok(Ok(File {
            length: 40,
            md5sum: None,
            path: strings(&["20", "30"]),
        }))
    );
}

#[test]
fn metainfo_survives_the_wire() {
    let meta = MetaInfo {
        info: Info {
            piece_length: 16384,
            pieces: vec![9; 40],
            private: Some(true),
            file_info: FileInfo::Multi {
                name: "dir".into(),
                files: vec![File { length: 3, md5sum: Some([b'f'; 32]), path: strings(&["a", "b"]) }],
            },
        },
        announce: "http://127.0.0.1:3000/announce".into(),
        announce_list: Some(strings(&["x", "y"])),
        comment: None,
        created_by: Some("me".into()),
        creation_date: Some(1),
        encoding: None,
    };
    let wire = encode(meta.to_data());
    assert_eq!(bt_tracker::bencode::try_decode_from_vec(wire), Ok(Ok(meta)));
}

#[test]
fn metainfo_files_key_decides_the_shape() {
    // `files` is there but no list: no fall back to the single file
    assert_eq!(
        try_decode_from_str::<FileInfo>("d5:files0:6:lengthi1e4:name1:ae"),
        Ok(Err(FromDataError))
    );
    assert_eq!(
        try_decode_from_str::<FileInfo>("d5:filesi3e6:lengthi1e4:name1:ae"),
        Ok(Err(FromDataError))
    );
    // `files` is a list with something in it that is no file
    assert_eq!(
        try_decode_from_str::<FileInfo>("d5:filesli1ee6:lengthi1e4:name1:ae"),
        Ok(Err(FromDataError))
    );
    assert_eq!(
        try_decode_from_str::<FileInfo>("d5:filesld6:length0:4:pathleee6:lengthi1e4:name1:ae"),
        Ok(Err(FromDataError))
    );
    // `files` is a list of files: the keys of the single file are not looked at
    assert_eq!(
        try_decode_from_str::<FileInfo>("d5:filesle6:length3:bad4:name1:ae"),
        Ok(Ok(FileInfo::Multi { name: b"a".to_vec(), files: vec![] }))
    );
    // no `files`: a single file
    assert_eq!(
        try_decode_from_str::<FileInfo>("d6:lengthi1e4:name1:ae"),
        Ok(Ok(FileInfo::Single { length: 1, md5sum: None, name: b"a".to_vec() }))
    );
    // the info and the torrent file fail with their files
    assert_eq!(
        try_decode_from_str::<Info>(
            "d5:files0:6:lengthi1e4:name1:a12:piece lengthi0e6:pieces0:e"
        ),
        Ok(Err(FromDataError))
    );
    assert_eq!(
        try_decode_from_str::<MetaInfo>(
            "d8:announce0:4:infod5:files0:6:lengthi1e4:name1:a12:piece lengthi0e6:pieces0:ee"
        ),
        Ok(Err(FromDataError))
    );
}
