//! The `info` dictionary of a torrent, whose hash names the torrent.

use vstd::prelude::*;
use vstd::slice::slice_to_vec;
use vstd::string::StringSliceAdditionalSpecFns;
use crate::bencode::data::{Data, FromData, FromDataError};
use crate::bencode::dictionary::{optional, required, Dictionary};
use crate::bencode::entries::{all_complete, lemma_lookup_without_other};
use crate::bencode::value::{with_entries, with_entry, without_key, Value};
use crate::metainfo::file_info::{
    file_info_entries, file_info_from_entries, lemma_file_info_without, FileInfo, FileInfoModel,
};
use crate::metainfo::keys::lemma_keys;

verus! {

/// What a torrent says of its content.
#[derive(PartialEq, Debug, Clone)]
pub struct Info {
    /// The number of bytes in each piece.
    pub piece_length: u64,
    /// The SHA-1 digests of the pieces, 20 bytes each, one after the other.
    pub pieces: Vec<u8>,
    /// Whether peers may be found by other means than the tracker.
    pub private: Option<bool>,
    /// The file or files.
    pub file_info: FileInfo,
}

/// The mathematical model of an [`Info`].
pub struct InfoModel {
    pub piece_length: u64,
    pub pieces: Seq<u8>,
    pub private: Option<bool>,
    pub file_info: FileInfoModel,
}

impl View for Info {
    type V = InfoModel;

    open spec fn view(&self) -> InfoModel {
        InfoModel {
            piece_length: self.piece_length,
            pieces: self.pieces@,
            private: self.private,
            file_info: self.file_info@,
        }
    }
}

/// The dictionary of an info: `piece length`, `pieces` and, where the flag
/// is set either way, `private` as 1 or 0; then the entries of the files.
pub open spec fn info_entries(info: InfoModel) -> Seq<(Seq<u8>, Value)> {
    let first = with_entry(
        with_entry(
            Seq::empty(),
            "piece length".spec_bytes(),
            Value::Int(info.piece_length as int),
        ),
        "pieces".spec_bytes(),
        Value::Bytes(info.pieces),
    );
    let own = match info.private {
        Some(private) => with_entry(
            first,
            "private".spec_bytes(),
            Value::Int(
                if private {
                    1
                } else {
                    0
                },
            ),
        ),
        None => first,
    };
    with_entries(own, file_info_entries(info.file_info))
}

/// The flag that an optional number stands for: set where it is not zero.
pub open spec fn flag(number: Option<u64>) -> Option<bool> {
    match number {
        Some(n) => Some(n != 0),
        None => None,
    }
}

/// The info that a dictionary describes: `piece length` must be a
/// non-negative integer, `pieces` a byte string and `private`, where it is
/// there, a non-negative integer; the other keys must describe the files.
pub open spec fn info_from_entries(entries: Seq<(Seq<u8>, Value)>) -> Option<InfoModel> {
    match (
        required::<u64>(entries, "piece length".spec_bytes()),
        required::<Vec<u8>>(entries, "pieces".spec_bytes()),
        optional::<u64>(entries, "private".spec_bytes()),
        file_info_from_entries(entries),
    ) {
        (Some(piece_length), Some(pieces), Some(private), Some(file_info)) => Some(
            InfoModel { piece_length, pieces, private: flag(private), file_info },
        ),
        _ => None,
    }
}

impl Info {
    /// The dictionary that describes the info.
    pub fn to_dictionary(&self) -> (dict: Dictionary)
        ensures
            dict@ == info_entries(self@),
            dict.wf(),
            all_complete(dict@),
    {
        let mut dict = Dictionary::new();
        dict.insert_str("piece length", Data::UInt(self.piece_length));
        dict.insert_str("pieces", Data::Bytes(slice_to_vec(self.pieces.as_slice())));
        match self.private {
            Some(private) => {
                dict.insert_str(
                    "private",
                    Data::UInt(
                        if private {
                            1
                        } else {
                            0
                        },
                    ),
                );
            },
            None => {},
        }
        let mut file_data = self.file_info.to_dictionary();
        dict.append(&mut file_data);
        dict
    }

    /// The bencode value that describes the info.
    pub fn to_data(&self) -> (data: Data)
        ensures
            data@ == Value::Dict(info_entries(self@)),
            data.wf(),
            data@.complete(),
    {
        Data::Dict(self.to_dictionary())
    }

    /// The info that `dict` describes, or an error where a key is missing
    /// or a value has the wrong kind or length.
    pub fn from_dictionary(dict: Dictionary) -> (r: Result<Info, FromDataError>)
        requires
            dict.wf(),
        ensures
            match info_from_entries(dict@) {
                Some(info) => r matches Ok(x) && x@ == info,
                None => r is Err,
            },
    {
        let ghost entries = dict@;
        let mut dict = dict;
        proof {
            lemma_keys();
            let piece_length = "piece length".spec_bytes();
            let pieces = "pieces".spec_bytes();
            let private = "private".spec_bytes();
            let first = without_key(entries, piece_length);
            let second = without_key(first, pieces);
            lemma_lookup_without_other(entries, piece_length, pieces);
            lemma_lookup_without_other(entries, piece_length, private);
            lemma_lookup_without_other(first, pieces, private);
            lemma_file_info_without(entries, piece_length);
            lemma_file_info_without(first, pieces);
            lemma_file_info_without(second, private);
        }
        let piece_length = match dict.remove_as::<u64>("piece length") {
            Ok(piece_length) => piece_length,
            Err(e) => {
                return Err(e);
            },
        };
        let pieces = match dict.remove_as::<Vec<u8>>("pieces") {
            Ok(pieces) => pieces,
            Err(e) => {
                return Err(e);
            },
        };
        let private = match dict.remove_as_opt::<u64>("private") {
            Ok(Some(number)) => Some(number != 0),
            Ok(None) => None,
            Err(e) => {
                return Err(e);
            },
        };
        let file_info = match FileInfo::from_dictionary(dict) {
            Ok(file_info) => file_info,
            Err(e) => {
                return Err(e);
            },
        };
        Ok(Info { piece_length, pieces, private, file_info })
    }
}

impl FromData for Info {
    type Model = InfoModel;

    open spec fn model(&self) -> InfoModel {
        self@
    }

    open spec fn from_value(v: Value) -> Option<InfoModel> {
        match v {
            Value::Dict(entries) => info_from_entries(entries),
            _ => None,
        }
    }

    fn from_data(data: Data) -> (r: Result<Info, FromDataError>) {
        match data {
            Data::Dict(dict) => Info::from_dictionary(dict),
            _ => Err(FromDataError),
        }
    }
}

} // verus!
