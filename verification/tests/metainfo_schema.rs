use bt_tracker::bencode::{encode, try_decode_from_str};
use bt_tracker::metainfo::{File, FileInfo, Info, MetaInfo};

fn strings(items: &[&str]) -> Vec<Vec<u8>> {
    items.iter().map(|s| s.as_bytes().to_vec()).collect()
}

#[test]
fn file_test_file_into() {
    // without md5sum
    assert_eq!(
        encode(
            File {
                length: 40,
                md5sum: None,
                path: strings(&["20", "30"]),
            }
            .to_data()
        ),
        b"d6:lengthi40e4:pathl2:202:30ee"
    );

    // with
    assert_eq!(
        encode(
            File {
                length: 25,
                md5sum: Some([b'a'; 32]),
                path: strings(&["usr", "bin", "env", "rustc"]),
            }
            .to_data()
        ),
        &b"d6:lengthi25e6:md5sum32:aaaaaaaaaaaaaaaaaaaaaaaaaaaaaaaa4:pathl3:usr3:bin3:env5:rustcee"[..]
    );
}

#[test]
fn file_test_file_from() {
    assert_eq!(
        try_decode_from_str("d6:lengthi40e4:pathl2:202:30ee"),
        Ok(Ok(File {
            length: 40,
            md5sum: None,
            path: strings(&["20", "30"]),
        }))
    );

    assert_eq!(
        try_decode_from_str(
            "d6:lengthi25e6:md5sum32:aaaaaaaaaaaaaaaaaaaaaaaaaaaaaaaa4:pathl3:usr3:bin3:env5:rustcee"
        ),
        Ok(Ok(File {
            length: 25,
            md5sum: Some([b'a'; 32]),
            path: strings(&["usr", "bin", "env", "rustc"]),
        }))
    );

    // md5 of length 31 (Ok(Err(_))
    assert!(try_decode_from_str::<File>(
        "d6:lengthi25e6:md5sum31:aaaaaaaaaaaaaaaaaaaaaaaaaaaaaaa4:pathl3:usr3:bin3:env5:rustcee"
    )
    .unwrap()
    .is_err());

    // missing stuff
    assert!(try_decode_from_str::<File>("de").unwrap().is_err());
}

#[test]
fn file_info_test_fileinfo_into() {
    // single without md5sum
    assert_eq!(
        encode(
            FileInfo::Single {
                length: 5,
                name: "cats.jpeg".into(),
                md5sum: None
            }
            .to_data()
        ),
        b"d6:lengthi5e4:name9:cats.jpege"
    );

    // single with md5sum
    assert_eq!(
        encode(
            FileInfo::Single {
                length: 0,
                name: "cows and cats".into(),
                md5sum: Some([b'5'; 32])
            }
            .to_data()
        ),
        &b"d6:lengthi0e6:md5sum32:555555555555555555555555555555554:name13:cows and catse"[..]
    );

    // minimal multi
    assert_eq!(
        encode(
            FileInfo::Multi {
                name: "mt".into(),
                files: vec![]
            }
            .to_data()
        ),
        b"d5:filesle4:name2:mte"
    );

    // substantial multi
    assert_eq!(
        encode(
            FileInfo::Multi {
                name: "hulking".into(),
                files: vec![
                    // one with a md5
                    File {
                        length: 2,
                        md5sum: Some([b'2'; 32]),
                        path: vec!["one".into(), "two".into()],
                    },
                    // one without, and with no path
                    File {
                        length: 4,
                        md5sum: None,
                        path: vec![],
                    }
                ],
            }
            .to_data()
        ),
        &b"d5:filesld6:lengthi2e6:md5sum32:222222222222222222222222222222224:pathl3:one3:twoeed6:lengthi4e4:pathleee4:name7:hulkinge"[..]
    );
}

#[test]
fn file_info_test_fileinfo_from() {
    // single without md5sum
    assert_eq!(
        try_decode_from_str("d6:lengthi5e4:name9:cats.jpege"),
        Ok(Ok(FileInfo::Single {
            length: 5,
            name: "cats.jpeg".into(),
            md5sum: None
        }))
    );

    // single with md5sum
    assert_eq!(
        try_decode_from_str(
            "d6:lengthi0e6:md5sum32:555555555555555555555555555555554:name13:cows and catse"
        ),
        Ok(Ok(FileInfo::Single {
            length: 0,
            name: "cows and cats".into(),
            md5sum: Some([b'5'; 32])
        }))
    );

    // minimal multi
    assert_eq!(
        try_decode_from_str("d5:filesle4:name2:mte"),
        Ok(Ok(FileInfo::Multi {
            name: "mt".into(),
            files: vec![]
        })),
    );

    // substantial multi
    assert_eq!(
        try_decode_from_str(
            "d5:filesld6:lengthi2e6:md5sum32:222222222222222222222222222222224:pathl3:one3:twoeed6:lengthi4e4:pathleee4:name7:hulkinge"
        ),
        Ok(Ok(FileInfo::Multi {
            name: "hulking".into(),
            files: vec![
                // one with a md5
                File {
                    length: 2,
                    md5sum: Some([b'2'; 32]),
                    path: vec!["one".into(), "two".into()],
                },
                // one without, and with no path
                File {
                    length: 4,
                    md5sum: None,
                    path: vec![],
                }
            ],
        }))
    );

    // wrong md5 length
    assert!(
        try_decode_from_str::<FileInfo>("d6:lengthi0e6:md5sum0:4:name0:e")
            .unwrap()
            .is_err()
    );

    // bad files
    assert!(
        // length is string
        try_decode_from_str::<FileInfo>("d5:filesld6:length0:4:pathlee4:name8:bad pathee")
            .unwrap()
            .is_err()
    )
}

#[test]
fn info_test_info_into() {
    // private = true, single file
    assert_eq!(
        encode(
            Info {
                piece_length: 20,
                pieces: "12345678901234567890".into(),
                private: Some(true),
                file_info: FileInfo::Single {
                    length: 0,
                    name: "".into(),
                    md5sum: None,
                },
            }
            .to_data()
        ),
        &b"d6:lengthi0e4:name0:12:piece lengthi20e6:pieces20:123456789012345678907:privatei1ee"[..]
    );

    assert_eq!(
        encode(
            Info {
                piece_length: 1,
                pieces: "12345678901234567890".into(),
                private: None,
                file_info: FileInfo::Multi {
                    name: "zamn".into(),
                    files: vec![File {
                        length: 0,
                        md5sum: None,
                        path: strings(&["sbin", "suid", "exploit"]),
                    }]
                }
            }
            .to_data()
        ),
        &b"d5:filesld6:lengthi0e4:pathl4:sbin4:suid7:exploiteee4:name4:zamn12:piece lengthi1e6:pieces20:12345678901234567890e"[..]
    );
}

#[test]
fn info_test_info_from() {
    assert_eq!(
        try_decode_from_str("d6:lengthi0e4:name0:12:piece lengthi0e6:pieces0:e"),
        Ok(Ok(Info {
            piece_length: 0,
            pieces: "".into(),
            private: None,
            file_info: FileInfo::Single {
                length: 0,
                name: "".into(),
                md5sum: None,
            },
        }))
    );

    assert_eq!(
        try_decode_from_str(
            "d5:filesld6:lengthi0e4:pathl4:sbin4:suid7:exploiteee4:name4:zamn12:piece lengthi20e6:pieces20:123456789012345678907:privatei1ee"
        ),
        Ok(Ok(Info {
            piece_length: 20,
            pieces: "12345678901234567890".into(),
            private: Some(true),
            file_info: FileInfo::Multi {
                name: "zamn".into(),
                files: vec![File {
                    length: 0,
                    md5sum: None,
                    path: strings(&["sbin", "suid", "exploit"]),
                }]
            },
        }))
    );
}

#[test]
fn meta_info_test_metainfo_into() {
    // minimal
    assert_eq!(
        encode(
            MetaInfo {
                info: Info {
                    piece_length: 0,
                    pieces: "".into(),
                    private: None,
                    file_info: FileInfo::Single {
                        length: 2,
                        md5sum: None,
                        name: "file".into(),
                    },
                },
                announce: "".into(),
                announce_list: None,
                comment: None,
                created_by: None,
                creation_date: None,
                encoding: None,
            }
            .to_data()
        ),
        &b"d8:announce0:4:infod6:lengthi2e4:name4:file12:piece lengthi0e6:pieces0:ee"[..]
    );

    // all options
    assert_eq!(
        encode(
            MetaInfo {
                info: Info {
                    piece_length: 5,
                    pieces: "123456".into(),
                    private: Some(false),
                    file_info: FileInfo::Multi {
                        files: vec![],
                        name: "folder".into(),
                    }
                },
                announce: "no".into(),
                announce_list: Some(vec!["12345".into()]),
                comment: Some("no comment".into()),
                created_by: Some("me".into()),
                creation_date: Some(0),
                encoding: Some("utf-8".into()),
            }
            .to_data()
        ),
        &b"d8:announce2:no13:announce-listl5:12345e7:comment10:no comment10:created by2:me13:creation datei0e8:encoding5:utf-84:infod5:filesle4:name6:folder12:piece lengthi5e6:pieces6:1234567:privatei0eee"[..]
    );
}

#[test]
fn meta_info_test_metainfo_from() {
    // minimal
    assert_eq!(
        try_decode_from_str(
            "d8:announce0:4:infod6:lengthi2e4:name4:file12:piece lengthi0e6:pieces0:ee"
        ),
        Ok(Ok(MetaInfo {
            info: Info {
                piece_length: 0,
                pieces: "".into(),
                private: None,
                file_info: FileInfo::Single {
                    length: 2,
                    md5sum: None,
                    name: "file".into(),
                },
            },
            announce: "".into(),
            announce_list: None,
            comment: None,
            created_by: None,
            creation_date: None,
            encoding: None,
        }))
    );

    assert_eq!(
        try_decode_from_str(
            "d8:announce2:no13:announce-listl5:12345e7:comment10:no comment10:created by2:me13:creation datei0e8:encoding5:utf-84:infod5:filesle4:name6:folder12:piece lengthi5e6:pieces6:1234567:privatei0eee"
        ),
        Ok(Ok(MetaInfo {
            info: Info {
                piece_length: 5,
                pieces: "123456".into(),
                private: Some(false),
                file_info: FileInfo::Multi {
                    files: vec![],
                    name: "folder".into(),
                }
            },
            announce: "no".into(),
            announce_list: Some(vec!["12345".into()]),
            comment: Some("no comment".into()),
            created_by: Some("me".into()),
            creation_date: Some(0),
            encoding: Some("utf-8".into()),
        }))
    );
}
