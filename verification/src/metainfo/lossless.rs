//! Nothing is lost on the way to a dictionary and back: reading the
//! dictionary of a file, of the files, of an info or of a torrent file
//! yields what the dictionary was made from.

use vstd::prelude::*;
use vstd::string::StringSliceAdditionalSpecFns;
use crate::bencode::data::{items_from_values, models, FromData};
use crate::bencode::dictionary::{optional, required};
use crate::bencode::entries::{lemma_lookup_with_entries, lemma_lookup_with_entry};
use crate::bencode::value::{lookup, with_entry, Value};
use crate::metainfo::file::{
    file_entries, file_from_entries, string_values, File, FileModel,
};
use crate::metainfo::file_info::{
    file_info_entries, file_info_from_entries, file_values, FileInfo, FileInfoModel,
};
use crate::metainfo::info::{info_entries, info_from_entries, Info, InfoModel};
use crate::metainfo::keys::lemma_keys;
use crate::metainfo::meta_info::{
    meta_info_entries, meta_info_from_entries, optional_bytes, with_optional, MetaInfo,
    MetaInfoModel,
};

verus! {

/// A checksum, where there is one, has 32 bytes.
pub open spec fn sum_valid(sum: Option<Seq<u8>>) -> bool {
    sum matches Some(bytes) ==> bytes.len() == 32
}

/// The model is that of some file.
pub open spec fn file_valid(file: FileModel) -> bool {
    sum_valid(file.md5sum)
}

/// The model is that of some files of a torrent.
pub open spec fn file_info_valid(info: FileInfoModel) -> bool {
    match info {
        FileInfoModel::Single { md5sum, .. } => sum_valid(md5sum),
        FileInfoModel::Multi { files, .. } => forall|i: int|
            0 <= i < files.len() ==> file_valid(#[trigger] files[i]),
    }
}

/// A list of byte strings reads back as the byte strings.
pub proof fn lemma_strings_back(items: Seq<Seq<u8>>)
    ensures
        <Vec<Vec<u8>> as FromData>::from_value(Value::List(string_values(items))) == Some(items),
{
    let values = string_values(items);
    assert forall|i: int| 0 <= i < values.len() implies <Vec<u8> as FromData>::from_value(
        #[trigger] values[i],
    ) is Some by {
        assert(values[i] == Value::Bytes(items[i]));
    }
    assert(items_from_values::<Vec<u8>>(values).unwrap() =~= items);
}

/// Reading the dictionary of a file yields the file.
pub proof fn lemma_file_back(file: FileModel)
    requires
        file_valid(file),
    ensures
        file_from_entries(file_entries(file)) == Some(file),
        <File as FromData>::from_value(Value::Dict(file_entries(file))) == Some(file),
{
    lemma_keys();
    let length = "length".spec_bytes();
    let path = "path".spec_bytes();
    let md5sum = "md5sum".spec_bytes();
    let none = Seq::<(Seq<u8>, Value)>::empty();
    let first = with_entry(none, length, Value::Int(file.length as int));
    let second = with_entry(first, path, Value::List(string_values(file.path)));
    let all = file_entries(file);
    lemma_lookup_with_entry(none, length, Value::Int(file.length as int), length);
    lemma_lookup_with_entry(none, length, Value::Int(file.length as int), path);
    lemma_lookup_with_entry(none, length, Value::Int(file.length as int), md5sum);
    lemma_lookup_with_entry(first, path, Value::List(string_values(file.path)), length);
    lemma_lookup_with_entry(first, path, Value::List(string_values(file.path)), path);
    lemma_lookup_with_entry(first, path, Value::List(string_values(file.path)), md5sum);
    if file.md5sum is Some {
        let sum = Value::Bytes(file.md5sum.unwrap());
        lemma_lookup_with_entry(second, md5sum, sum, length);
        lemma_lookup_with_entry(second, md5sum, sum, path);
        lemma_lookup_with_entry(second, md5sum, sum, md5sum);
    }
    lemma_strings_back(file.path);
    assert(required::<u64>(all, length) == Some(file.length));
    assert(required::<Vec<Vec<u8>>>(all, path) == Some(file.path));
    assert(optional::<Vec<u8>>(all, md5sum) == Some(file.md5sum));
}

/// A list of file dictionaries reads back as the files.
pub proof fn lemma_files_back(files: Seq<FileModel>)
    requires
        forall|i: int| 0 <= i < files.len() ==> file_valid(#[trigger] files[i]),
    ensures
        <Vec<File> as FromData>::from_value(Value::List(file_values(files))) == Some(files),
{
    let values = file_values(files);
    assert forall|i: int| 0 <= i < values.len() implies <File as FromData>::from_value(
        #[trigger] values[i],
    ) == Some(files[i]) by {
        assert(values[i] == Value::Dict(file_entries(files[i])));
        lemma_file_back(files[i]);
    }
    assert(items_from_values::<File>(values).unwrap() =~= files);
}

/// Reading the dictionary of the files of a torrent yields the files.
pub proof fn lemma_file_info_back(info: FileInfoModel)
    requires
        file_info_valid(info),
    ensures
        file_info_from_entries(file_info_entries(info)) == Some(info),
{
    lemma_keys();
    let length_key = "length".spec_bytes();
    let name_key = "name".spec_bytes();
    let files_key = "files".spec_bytes();
    let md5sum_key = "md5sum".spec_bytes();
    let none = Seq::<(Seq<u8>, Value)>::empty();
    let all = file_info_entries(info);
    match info {
        FileInfoModel::Single { length, md5sum, name } => {
            let first = with_entry(none, length_key, Value::Int(length as int));
            let second = match md5sum {
                Some(sum) => with_entry(first, md5sum_key, Value::Bytes(sum)),
                None => first,
            };
            assert forall|key: Seq<u8>| lookup(all, key) == (if key == name_key {
                Some(Value::Bytes(name))
            } else if key == md5sum_key && md5sum is Some {
                Some(Value::Bytes(md5sum.unwrap()))
            } else if key == length_key {
                Some(Value::Int(length as int))
            } else {
                None
            }) by {
                lemma_lookup_with_entry(none, length_key, Value::Int(length as int), key);
                if md5sum is Some {
                    lemma_lookup_with_entry(first, md5sum_key, Value::Bytes(md5sum.unwrap()), key);
                }
                lemma_lookup_with_entry(second, name_key, Value::Bytes(name), key);
            }
            assert(required::<Vec<u8>>(all, name_key) == Some(name));
            assert(optional::<Vec<File>>(all, files_key) == Some(None::<Seq<FileModel>>));
            assert(required::<u64>(all, length_key) == Some(length));
            assert(optional::<Vec<u8>>(all, md5sum_key) == Some(md5sum));
        },
        FileInfoModel::Multi { name, files } => {
            let first = with_entry(none, name_key, Value::Bytes(name));
            let list = Value::List(file_values(files));
            lemma_lookup_with_entry(none, name_key, Value::Bytes(name), name_key);
            lemma_lookup_with_entry(none, name_key, Value::Bytes(name), files_key);
            lemma_lookup_with_entry(first, files_key, list, name_key);
            lemma_lookup_with_entry(first, files_key, list, files_key);
            lemma_files_back(files);
            assert(required::<Vec<u8>>(all, name_key) == Some(name));
            assert(optional::<Vec<File>>(all, files_key) == Some(Some(files)));
        },
    }
}

/// The entries of the files bind none of the keys of the info itself.
proof fn lemma_file_info_foreign(info: FileInfoModel, key: Seq<u8>)
    requires
        key != "length".spec_bytes(),
        key != "name".spec_bytes(),
        key != "files".spec_bytes(),
        key != "md5sum".spec_bytes(),
    ensures
        lookup(file_info_entries(info), key) == None::<Value>,
{
    let none = Seq::<(Seq<u8>, Value)>::empty();
    match info {
        FileInfoModel::Single { length, md5sum, name } => {
            let first = with_entry(none, "length".spec_bytes(), Value::Int(length as int));
            let second = match md5sum {
                Some(sum) => with_entry(first, "md5sum".spec_bytes(), Value::Bytes(sum)),
                None => first,
            };
            lemma_lookup_with_entry(none, "length".spec_bytes(), Value::Int(length as int), key);
            if md5sum is Some {
                lemma_lookup_with_entry(
                    first,
                    "md5sum".spec_bytes(),
                    Value::Bytes(md5sum.unwrap()),
                    key,
                );
            }
            lemma_lookup_with_entry(second, "name".spec_bytes(), Value::Bytes(name), key);
        },
        FileInfoModel::Multi { name, files } => {
            let first = with_entry(none, "name".spec_bytes(), Value::Bytes(name));
            lemma_lookup_with_entry(none, "name".spec_bytes(), Value::Bytes(name), key);
            lemma_lookup_with_entry(
                first,
                "files".spec_bytes(),
                Value::List(file_values(files)),
                key,
            );
        },
    }
}

/// Reading the dictionary of an info yields the info.
pub proof fn lemma_info_back(info: InfoModel)
    requires
        file_info_valid(info.file_info),
    ensures
        info_from_entries(info_entries(info)) == Some(info),
        <Info as FromData>::from_value(Value::Dict(info_entries(info))) == Some(info),
{
    lemma_keys();
    let piece_length = "piece length".spec_bytes();
    let pieces = "pieces".spec_bytes();
    let private = "private".spec_bytes();
    let none = Seq::<(Seq<u8>, Value)>::empty();
    let first = with_entry(none, piece_length, Value::Int(info.piece_length as int));
    let second = with_entry(first, pieces, Value::Bytes(info.pieces));
    let number = Value::Int(
        if info.private == Some(true) {
            1
        } else {
            0
        },
    );
    let own = match info.private {
        Some(_) => with_entry(second, private, number),
        None => second,
    };
    let files = file_info_entries(info.file_info);
    let all = info_entries(info);
    assert(all == crate::bencode::value::with_entries(own, files));
    // the keys of the info itself
    assert forall|key: Seq<u8>|
        key == piece_length || key == pieces || key == private implies lookup(all, key) == (
        if key == piece_length {
            Some(Value::Int(info.piece_length as int))
        } else if key == pieces {
            Some(Value::Bytes(info.pieces))
        } else if info.private is Some {
            Some(number)
        } else {
            None
        }) by {
        lemma_lookup_with_entries(own, files, key);
        lemma_file_info_foreign(info.file_info, key);
        lemma_lookup_with_entry(none, piece_length, Value::Int(info.piece_length as int), key);
        lemma_lookup_with_entry(first, pieces, Value::Bytes(info.pieces), key);
        if info.private is Some {
            lemma_lookup_with_entry(second, private, number, key);
        }
    }
    // the keys of the files
    assert forall|key: Seq<u8>|
        key == "length".spec_bytes() || key == "name".spec_bytes() || key == "files".spec_bytes()
            || key == "md5sum".spec_bytes() implies lookup(all, key) == lookup(files, key) by {
        lemma_lookup_with_entries(own, files, key);
        lemma_lookup_with_entry(none, piece_length, Value::Int(info.piece_length as int), key);
        lemma_lookup_with_entry(first, pieces, Value::Bytes(info.pieces), key);
        if info.private is Some {
            lemma_lookup_with_entry(second, private, number, key);
        }
    }
    lemma_file_info_back(info.file_info);
    assert(lookup(all, "name".spec_bytes()) == lookup(files, "name".spec_bytes()));
    assert(lookup(all, "files".spec_bytes()) == lookup(files, "files".spec_bytes()));
    assert(lookup(all, "length".spec_bytes()) == lookup(files, "length".spec_bytes()));
    assert(lookup(all, "md5sum".spec_bytes()) == lookup(files, "md5sum".spec_bytes()));
    assert(file_info_from_entries(all) == file_info_from_entries(files));
    assert(lookup(all, piece_length) == Some(Value::Int(info.piece_length as int)));
    assert(lookup(all, pieces) == Some(Value::Bytes(info.pieces)));
    assert(required::<u64>(all, piece_length) == Some(info.piece_length));
    assert(required::<Vec<u8>>(all, pieces) == Some(info.pieces));
    match info.private {
        Some(flag) => {
            assert(lookup(all, private) == Some(number));
            assert(optional::<u64>(all, private) == Some(
                Some(
                    if flag {
                        1u64
                    } else {
                        0u64
                    },
                ),
            ));
        },
        None => {
            assert(lookup(all, private) == None::<Value>);
        },
    }
}

/// Reading the dictionary of a torrent file yields the torrent file.
pub proof fn lemma_meta_info_back(meta: MetaInfoModel)
    requires
        file_info_valid(meta.info.file_info),
    ensures
        meta_info_from_entries(meta_info_entries(meta)) == Some(meta),
{
    lemma_keys();
    let info = "info".spec_bytes();
    let announce = "announce".spec_bytes();
    let list = "announce-list".spec_bytes();
    let date = "creation date".spec_bytes();
    let comment = "comment".spec_bytes();
    let created_by = "created by".spec_bytes();
    let encoding = "encoding".spec_bytes();
    let none = Seq::<(Seq<u8>, Value)>::empty();
    let info_value = Value::Dict(info_entries(meta.info));
    let list_value: Option<Value> = match meta.announce_list {
        Some(items) => Some(Value::List(string_values(items))),
        None => None,
    };
    let date_value: Option<Value> = match meta.creation_date {
        Some(seconds) => Some(Value::Int(seconds as int)),
        None => None,
    };
    let e1 = with_entry(none, info, info_value);
    let e2 = with_entry(e1, announce, Value::Bytes(meta.announce));
    let e3 = with_optional(e2, list, list_value);
    let e4 = with_optional(e3, date, date_value);
    let e5 = with_optional(e4, comment, optional_bytes(meta.comment));
    let e6 = with_optional(e5, created_by, optional_bytes(meta.created_by));
    let all = with_optional(e6, encoding, optional_bytes(meta.encoding));
    assert(all == meta_info_entries(meta));
    assert forall|key: Seq<u8>| lookup(all, key) == (if key == encoding && meta.encoding is Some {
        optional_bytes(meta.encoding)
    } else if key == created_by && meta.created_by is Some {
        optional_bytes(meta.created_by)
    } else if key == comment && meta.comment is Some {
        optional_bytes(meta.comment)
    } else if key == date && meta.creation_date is Some {
        date_value
    } else if key == list && meta.announce_list is Some {
        list_value
    } else if key == announce {
        Some(Value::Bytes(meta.announce))
    } else if key == info {
        Some(info_value)
    } else {
        None
    }) by {
        lemma_lookup_with_entry(none, info, info_value, key);
        lemma_lookup_with_entry(e1, announce, Value::Bytes(meta.announce), key);
        if list_value is Some {
            lemma_lookup_with_entry(e2, list, list_value.unwrap(), key);
        }
        if date_value is Some {
            lemma_lookup_with_entry(e3, date, date_value.unwrap(), key);
        }
        if meta.comment is Some {
            lemma_lookup_with_entry(e4, comment, optional_bytes(meta.comment).unwrap(), key);
        }
        if meta.created_by is Some {
            lemma_lookup_with_entry(e5, created_by, optional_bytes(meta.created_by).unwrap(), key);
        }
        if meta.encoding is Some {
            lemma_lookup_with_entry(e6, encoding, optional_bytes(meta.encoding).unwrap(), key);
        }
    }
    lemma_info_back(meta.info);
    if meta.announce_list is Some {
        lemma_strings_back(meta.announce_list.unwrap());
    }
    assert(required::<Info>(all, info) == Some(meta.info));
    assert(required::<Vec<u8>>(all, announce) == Some(meta.announce));
    assert(optional::<Vec<Vec<u8>>>(all, list) == Some(meta.announce_list));
    assert(optional::<Vec<u8>>(all, comment) == Some(meta.comment));
    assert(optional::<Vec<u8>>(all, created_by) == Some(meta.created_by));
    assert(optional::<u64>(all, date) == Some(meta.creation_date));
    assert(optional::<Vec<u8>>(all, encoding) == Some(meta.encoding));
}

/// The model of a file is that of some file.
pub proof fn lemma_file_is_valid(file: File)
    ensures
        file_valid(file@),
{
}

/// The model of the files of a torrent is that of some files.
pub proof fn lemma_file_info_is_valid(info: FileInfo)
    ensures
        file_info_valid(info@),
{
    match info {
        FileInfo::Multi { files, .. } => {
            assert forall|i: int| 0 <= i < models::<File>(files@).len() implies file_valid(
                #[trigger] models::<File>(files@)[i],
            ) by {
                lemma_file_is_valid(files@[i]);
            }
        },
        _ => {},
    }
}

/// What is read from the dictionary that was written for a torrent file is
/// that torrent file.
pub proof fn lemma_torrent_file_survives(meta: MetaInfo)
    ensures
        meta_info_from_entries(meta_info_entries(meta@)) == Some(meta@),
{
    lemma_file_info_is_valid(meta.info.file_info);
    lemma_meta_info_back(meta@);
}

} // verus!
