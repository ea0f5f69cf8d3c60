//! The content of a torrent file.

use vstd::prelude::*;
use vstd::slice::slice_to_vec;
use vstd::string::StringSliceAdditionalSpecFns;
use crate::bencode::data::{Data, FromData, FromDataError};
use crate::bencode::dictionary::{optional, required, Dictionary};
use crate::bencode::entries::{all_complete, lemma_lookup_without_other};
use crate::bencode::value::{with_entry, without_key, Value};
use crate::metainfo::file::{lemma_string_values, string_values, strings_to_data, strings_view};
use crate::metainfo::info::{info_entries, Info, InfoModel};
use crate::metainfo::keys::lemma_keys;

verus! {

/// A torrent file.
#[derive(PartialEq, Debug, Clone)]
pub struct MetaInfo {
    /// What the torrent says of its content.
    pub info: Info,
    /// The announce address of the tracker.
    pub announce: Vec<u8>,
    /// More announce addresses, as one flat list.
    pub announce_list: Option<Vec<Vec<u8>>>,
    /// When the torrent was made, in seconds since the epoch.
    pub creation_date: Option<u64>,
    /// A free comment.
    pub comment: Option<Vec<u8>>,
    /// The program that made the torrent.
    pub created_by: Option<Vec<u8>>,
    /// The encoding of the strings of the info.
    pub encoding: Option<Vec<u8>>,
}

/// The mathematical model of a [`MetaInfo`].
pub struct MetaInfoModel {
    pub info: InfoModel,
    pub announce: Seq<u8>,
    pub announce_list: Option<Seq<Seq<u8>>>,
    pub creation_date: Option<u64>,
    pub comment: Option<Seq<u8>>,
    pub created_by: Option<Seq<u8>>,
    pub encoding: Option<Seq<u8>>,
}

/// The bytes of an optional byte vector.
pub open spec fn bytes_view(bytes: Option<Vec<u8>>) -> Option<Seq<u8>> {
    match bytes {
        Some(b) => Some(b@),
        None => None,
    }
}

/// The byte strings of an optional vector of byte vectors.
pub open spec fn list_of_strings_view(list: Option<Vec<Vec<u8>>>) -> Option<Seq<Seq<u8>>> {
    match list {
        Some(items) => Some(strings_view(items@)),
        None => None,
    }
}

impl View for MetaInfo {
    type V = MetaInfoModel;

    open spec fn view(&self) -> MetaInfoModel {
        MetaInfoModel {
            info: self.info@,
            announce: self.announce@,
            announce_list: list_of_strings_view(self.announce_list),
            creation_date: self.creation_date,
            comment: bytes_view(self.comment),
            created_by: bytes_view(self.created_by),
            encoding: bytes_view(self.encoding),
        }
    }
}

/// `entries` with `key` bound to `value` where there is a value.
pub open spec fn with_optional(
    entries: Seq<(Seq<u8>, Value)>,
    key: Seq<u8>,
    value: Option<Value>,
) -> Seq<(Seq<u8>, Value)> {
    match value {
        Some(v) => with_entry(entries, key, v),
        None => entries,
    }
}

/// An optional byte string as a value.
pub open spec fn optional_bytes(bytes: Option<Seq<u8>>) -> Option<Value> {
    match bytes {
        Some(b) => Some(Value::Bytes(b)),
        None => None,
    }
}

/// The dictionary of a torrent file: `info` and `announce`, and each
/// optional field that is there.
pub open spec fn meta_info_entries(meta: MetaInfoModel) -> Seq<(Seq<u8>, Value)> {
    let base = with_entry(
        with_entry(Seq::empty(), "info".spec_bytes(), Value::Dict(info_entries(meta.info))),
        "announce".spec_bytes(),
        Value::Bytes(meta.announce),
    );
    let listed = with_optional(
        base,
        "announce-list".spec_bytes(),
        match meta.announce_list {
            Some(list) => Some(Value::List(string_values(list))),
            None => None,
        },
    );
    let dated = with_optional(
        listed,
        "creation date".spec_bytes(),
        match meta.creation_date {
            Some(date) => Some(Value::Int(date as int)),
            None => None,
        },
    );
    let commented = with_optional(dated, "comment".spec_bytes(), optional_bytes(meta.comment));
    let signed = with_optional(
        commented,
        "created by".spec_bytes(),
        optional_bytes(meta.created_by),
    );
    with_optional(signed, "encoding".spec_bytes(), optional_bytes(meta.encoding))
}

/// The torrent file that a dictionary describes. `info` must describe an
/// info and `announce` must be a byte string. Of the optional keys,
/// `announce-list` must be a list of byte strings, `creation date` a
/// non-negative integer, and `comment`, `created by` and `encoding` byte
/// strings. A missing optional key reads as nothing.
pub open spec fn meta_info_from_entries(entries: Seq<(Seq<u8>, Value)>) -> Option<MetaInfoModel> {
    match (
        required::<Info>(entries, "info".spec_bytes()),
        required::<Vec<u8>>(entries, "announce".spec_bytes()),
        optional::<Vec<Vec<u8>>>(entries, "announce-list".spec_bytes()),
        optional::<Vec<u8>>(entries, "comment".spec_bytes()),
        optional::<Vec<u8>>(entries, "created by".spec_bytes()),
        optional::<u64>(entries, "creation date".spec_bytes()),
        optional::<Vec<u8>>(entries, "encoding".spec_bytes()),
    ) {
        (
            Some(info),
            Some(announce),
            Some(announce_list),
            Some(comment),
            Some(created_by),
            Some(creation_date),
            Some(encoding),
        ) => Some(
            MetaInfoModel {
                info,
                announce,
                announce_list,
                creation_date,
                comment,
                created_by,
                encoding,
            },
        ),
        _ => None,
    }
}

/// A copy of an optional byte vector as a byte-string value.
fn optional_bytes_to_data(bytes: &Option<Vec<u8>>) -> (data: Option<Data>)
    ensures
        match optional_bytes(bytes_view(*bytes)) {
            Some(v) => data matches Some(d) && d@ == v && d.wf() && d@.complete(),
            None => data is None,
        },
{
    match bytes {
        Some(b) => Some(Data::Bytes(slice_to_vec(b.as_slice()))),
        None => None,
    }
}

impl MetaInfo {
    /// The dictionary that describes the torrent file.
    pub fn to_dictionary(&self) -> (dict: Dictionary)
        ensures
            dict@ == meta_info_entries(self@),
            dict.wf(),
            all_complete(dict@),
    {
        let mut dict = Dictionary::new();
        dict.insert_str("info", self.info.to_data());
        dict.insert_str("announce", Data::Bytes(slice_to_vec(self.announce.as_slice())));
        match &self.announce_list {
            Some(list) => {
                proof {
                    lemma_string_values(strings_view(list@));
                }
                dict.insert_str("announce-list", Data::List(strings_to_data(list)));
            },
            None => {},
        }
        match self.creation_date {
            Some(date) => {
                dict.insert_str("creation date", Data::UInt(date));
            },
            None => {},
        }
        dict.insert_some(slice_to_vec("comment".as_bytes()), optional_bytes_to_data(&self.comment));
        dict.insert_some(
            slice_to_vec("created by".as_bytes()),
            optional_bytes_to_data(&self.created_by),
        );
        dict.insert_some(
            slice_to_vec("encoding".as_bytes()),
            optional_bytes_to_data(&self.encoding),
        );
        dict
    }

    /// The bencode value that describes the torrent file.
    pub fn to_data(&self) -> (data: Data)
        ensures
            data@ == Value::Dict(meta_info_entries(self@)),
            data.wf(),
            data@.complete(),
    {
        Data::Dict(self.to_dictionary())
    }

    /// The torrent file that `dict` describes, or an error where a key is
    /// missing or a value has the wrong kind or length.
    pub fn from_dictionary(dict: Dictionary) -> (r: Result<MetaInfo, FromDataError>)
        requires
            dict.wf(),
        ensures
            match meta_info_from_entries(dict@) {
                Some(meta) => r matches Ok(x) && x@ == meta,
                None => r is Err,
            },
    {
        let ghost entries = dict@;
        let mut dict = dict;
        proof {
            lemma_keys();
            let info = "info".spec_bytes();
            let announce = "announce".spec_bytes();
            let list = "announce-list".spec_bytes();
            let comment = "comment".spec_bytes();
            let created_by = "created by".spec_bytes();
            let date = "creation date".spec_bytes();
            let encoding = "encoding".spec_bytes();
            let e1 = without_key(entries, info);
            let e2 = without_key(e1, announce);
            let e3 = without_key(e2, list);
            let e4 = without_key(e3, comment);
            let e5 = without_key(e4, created_by);
            let e6 = without_key(e5, date);
            lemma_lookup_without_other(entries, info, announce);
            lemma_lookup_without_other(entries, info, list);
            lemma_lookup_without_other(entries, info, comment);
            lemma_lookup_without_other(entries, info, created_by);
            lemma_lookup_without_other(entries, info, date);
            lemma_lookup_without_other(entries, info, encoding);
            lemma_lookup_without_other(e1, announce, list);
            lemma_lookup_without_other(e1, announce, comment);
            lemma_lookup_without_other(e1, announce, created_by);
            lemma_lookup_without_other(e1, announce, date);
            lemma_lookup_without_other(e1, announce, encoding);
            lemma_lookup_without_other(e2, list, comment);
            lemma_lookup_without_other(e2, list, created_by);
            lemma_lookup_without_other(e2, list, date);
            lemma_lookup_without_other(e2, list, encoding);
            lemma_lookup_without_other(e3, comment, created_by);
            lemma_lookup_without_other(e3, comment, date);
            lemma_lookup_without_other(e3, comment, encoding);
            lemma_lookup_without_other(e4, created_by, date);
            lemma_lookup_without_other(e4, created_by, encoding);
            lemma_lookup_without_other(e5, date, encoding);
        }
        let info = match dict.remove_as::<Info>("info") {
            Ok(info) => info,
            Err(e) => {
                return Err(e);
            },
        };
        let announce = match dict.remove_as::<Vec<u8>>("announce") {
            Ok(announce) => announce,
            Err(e) => {
                return Err(e);
            },
        };
        let announce_list = match dict.remove_as_opt::<Vec<Vec<u8>>>("announce-list") {
            Ok(list) => list,
            Err(e) => {
                return Err(e);
            },
        };
        let comment = match dict.remove_as_opt::<Vec<u8>>("comment") {
            Ok(comment) => comment,
            Err(e) => {
                return Err(e);
            },
        };
        let created_by = match dict.remove_as_opt::<Vec<u8>>("created by") {
            Ok(created_by) => created_by,
            Err(e) => {
                return Err(e);
            },
        };
        let creation_date = match dict.remove_as_opt::<u64>("creation date") {
            Ok(date) => date,
            Err(e) => {
                return Err(e);
            },
        };
        let encoding = match dict.remove_as_opt::<Vec<u8>>("encoding") {
            Ok(encoding) => encoding,
            Err(e) => {
                return Err(e);
            },
        };
        let meta = MetaInfo {
            info,
            announce,
            announce_list,
            creation_date,
            comment,
            created_by,
            encoding,
        };
        proof {
            let expected = meta_info_from_entries(entries).unwrap();
            if meta.announce_list is Some {
                assert(strings_view(meta.announce_list.unwrap()@)
                    =~= expected.announce_list.unwrap());
            }
        }
        Ok(meta)
    }
}

impl FromData for MetaInfo {
    type Model = MetaInfoModel;

    open spec fn model(&self) -> MetaInfoModel {
        self@
    }

    open spec fn from_value(v: Value) -> Option<MetaInfoModel> {
        match v {
            Value::Dict(entries) => meta_info_from_entries(entries),
            _ => None,
        }
    }

    fn from_data(data: Data) -> (r: Result<MetaInfo, FromDataError>) {
        match data {
            Data::Dict(dict) => MetaInfo::from_dictionary(dict),
            _ => Err(FromDataError),
        }
    }
}

} // verus!
