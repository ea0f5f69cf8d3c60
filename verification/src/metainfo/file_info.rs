//! What a torrent holds: one file, or a directory of files.

use vstd::prelude::*;
use vstd::slice::slice_to_vec;
use vstd::string::StringSliceAdditionalSpecFns;
use crate::bencode::data::{list_view, models, Data, FromData, FromDataError};
use crate::bencode::dictionary::{optional, required, Dictionary};
use crate::bencode::entries::{all_complete, lemma_lookup_without_other};
use crate::bencode::value::{with_entry, without_key, Value};
use crate::metainfo::file::{checksum_from, file_entries, sum_view, File, FileModel};
use crate::metainfo::keys::lemma_keys;

verus! {

/// The files of a torrent.
#[derive(Debug, PartialEq, Clone)]
pub enum FileInfo {
    /// A torrent of one file.
    Single {
        /// The length of the file in bytes.
        length: u64,
        /// The MD5 sum of the file as 32 hexadecimal characters, if given.
        md5sum: Option<[u8; 32]>,
        /// The name of the file.
        name: Vec<u8>,
    },
    /// A torrent of several files.
    Multi {
        /// The name of the directory that holds the files.
        name: Vec<u8>,
        /// The files.
        files: Vec<File>,
    },
}

/// The mathematical model of a [`FileInfo`].
pub enum FileInfoModel {
    Single { length: u64, md5sum: Option<Seq<u8>>, name: Seq<u8> },
    Multi { name: Seq<u8>, files: Seq<FileModel> },
}

impl View for FileInfo {
    type V = FileInfoModel;

    open spec fn view(&self) -> FileInfoModel {
        match self {
            FileInfo::Single { length, md5sum, name } => FileInfoModel::Single {
                length: *length,
                md5sum: sum_view(*md5sum),
                name: name@,
            },
            FileInfo::Multi { name, files } => FileInfoModel::Multi {
                name: name@,
                files: models::<File>(files@),
            },
        }
    }
}

/// The dictionaries of a list of files.
pub open spec fn file_values(files: Seq<FileModel>) -> Seq<Value> {
    Seq::new(files.len(), |i: int| Value::Dict(file_entries(files[i])))
}

/// The dictionary entries of the files of a torrent: `length`, `name` and
/// perhaps `md5sum` for one file, `name` and `files` for several.
pub open spec fn file_info_entries(info: FileInfoModel) -> Seq<(Seq<u8>, Value)> {
    match info {
        FileInfoModel::Single { length, md5sum, name } => {
            let first = with_entry(
                Seq::empty(),
                "length".spec_bytes(),
                Value::Int(length as int),
            );
            let second = match md5sum {
                Some(sum) => with_entry(first, "md5sum".spec_bytes(), Value::Bytes(sum)),
                None => first,
            };
            with_entry(second, "name".spec_bytes(), Value::Bytes(name))
        },
        FileInfoModel::Multi { name, files } => with_entry(
            with_entry(Seq::empty(), "name".spec_bytes(), Value::Bytes(name)),
            "files".spec_bytes(),
            Value::List(file_values(files)),
        ),
    }
}

/// The files that a dictionary describes. `name` must be a byte string.
/// Where the key `files` is there, the torrent has several files, and
/// `files` must be a list of file dictionaries. Where it is not there, the
/// torrent has one file: `length` must be a non-negative integer and
/// `md5sum`, where it is there, a byte string of 32 bytes.
pub open spec fn file_info_from_entries(entries: Seq<(Seq<u8>, Value)>) -> Option<FileInfoModel> {
    match required::<Vec<u8>>(entries, "name".spec_bytes()) {
        None => None,
        Some(name) => match optional::<Vec<File>>(entries, "files".spec_bytes()) {
            None => None,
            Some(Some(files)) => Some(FileInfoModel::Multi { name, files }),
            Some(None) => match (
                required::<u64>(entries, "length".spec_bytes()),
                optional::<Vec<u8>>(entries, "md5sum".spec_bytes()),
            ) {
                (Some(length), Some(md5sum)) => if (md5sum matches Some(sum) && sum.len() != 32) {
                    None
                } else {
                    Some(FileInfoModel::Single { length, md5sum, name })
                },
                _ => None,
            },
        },
    }
}

/// A key that is none of `name`, `files`, `length` and `md5sum` has no part
/// in what files a dictionary describes.
pub proof fn lemma_file_info_without(entries: Seq<(Seq<u8>, Value)>, gone: Seq<u8>)
    requires
        gone != "name".spec_bytes(),
        gone != "files".spec_bytes(),
        gone != "length".spec_bytes(),
        gone != "md5sum".spec_bytes(),
    ensures
        file_info_from_entries(without_key(entries, gone)) == file_info_from_entries(entries),
{
    lemma_lookup_without_other(entries, gone, "name".spec_bytes());
    lemma_lookup_without_other(entries, gone, "files".spec_bytes());
    lemma_lookup_without_other(entries, gone, "length".spec_bytes());
    lemma_lookup_without_other(entries, gone, "md5sum".spec_bytes());
}

/// The dictionaries of a list of files, as bencode values.
pub fn files_to_data(files: &Vec<File>) -> (list: Vec<Data>)
    ensures
        list_view(list@) == file_values(models::<File>(files@)),
        Data::List(list).wf(),
        Data::List(list)@.complete(),
{
    let mut list: Vec<Data> = Vec::new();
    let mut i: usize = 0;
    while i < files.len()
        invariant
            i <= files.len(),
            list.len() == i,
            forall|k: int|
                0 <= k < i ==> (#[trigger] list@[k])@ == Value::Dict(file_entries(files@[k]@))
                    && list@[k].wf() && list@[k]@.complete(),
        decreases files.len() - i,
    {
        list.push(files[i].to_data());
        i += 1;
    }
    assert(list_view(list@) =~= file_values(models::<File>(files@)));
    assert forall|k: int| 0 <= k < list_view(list@).len() implies (#[trigger] list_view(
        list@,
    )[k]).canonical() && list_view(list@)[k].complete() by {
        assert(list_view(list@)[k] == list@[k]@);
    }
    list
}

impl FileInfo {
    /// The dictionary that describes the files.
    pub fn to_dictionary(&self) -> (dict: Dictionary)
        ensures
            dict@ == file_info_entries(self@),
            dict.wf(),
            all_complete(dict@),
    {
        let mut dict = Dictionary::new();
        match self {
            FileInfo::Single { length, md5sum, name } => {
                dict.insert_str("length", Data::UInt(*length));
                match md5sum {
                    Some(sum) => {
                        dict.insert_str("md5sum", Data::Bytes(slice_to_vec(sum.as_slice())));
                    },
                    None => {},
                }
                dict.insert_str("name", Data::Bytes(slice_to_vec(name.as_slice())));
            },
            FileInfo::Multi { name, files } => {
                dict.insert_str("name", Data::Bytes(slice_to_vec(name.as_slice())));
                dict.insert_str("files", Data::List(files_to_data(files)));
            },
        }
        dict
    }

    /// The bencode value that describes the files.
    pub fn to_data(&self) -> (data: Data)
        ensures
            data@ == Value::Dict(file_info_entries(self@)),
            data.wf(),
            data@.complete(),
    {
        Data::Dict(self.to_dictionary())
    }

    /// The files that `dict` describes, or an error where a key is missing
    /// or a value has the wrong kind or length.
    pub fn from_dictionary(dict: Dictionary) -> (r: Result<FileInfo, FromDataError>)
        requires
            dict.wf(),
        ensures
            match file_info_from_entries(dict@) {
                Some(info) => r matches Ok(x) && x@ == info,
                None => r is Err,
            },
    {
        let ghost entries = dict@;
        let mut dict = dict;
        proof {
            lemma_keys();
            let name = "name".spec_bytes();
            let files = "files".spec_bytes();
            let length = "length".spec_bytes();
            let md5sum = "md5sum".spec_bytes();
            let first = without_key(entries, name);
            let second = without_key(first, files);
            let third = without_key(second, length);
            lemma_lookup_without_other(entries, name, files);
            lemma_lookup_without_other(entries, name, length);
            lemma_lookup_without_other(entries, name, md5sum);
            lemma_lookup_without_other(first, files, length);
            lemma_lookup_without_other(first, files, md5sum);
            lemma_lookup_without_other(second, length, md5sum);
        }
        let name = match dict.remove_as::<Vec<u8>>("name") {
            Ok(name) => name,
            Err(e) => {
                return Err(e);
            },
        };
        match dict.remove_as_opt::<Vec<File>>("files") {
            Err(e) => Err(e),
            Ok(Some(files)) => Ok(FileInfo::Multi { name, files }),
            Ok(None) => {
                let length = match dict.remove_as::<u64>("length") {
                    Ok(length) => length,
                    Err(e) => {
                        return Err(e);
                    },
                };
                let md5sum = match dict.remove_as_opt::<Vec<u8>>("md5sum") {
                    Ok(Some(bytes)) => match checksum_from(bytes.as_slice()) {
                        Some(sum) => Some(sum),
                        None => {
                            return Err(FromDataError);
                        },
                    },
                    Ok(None) => None,
                    Err(e) => {
                        return Err(e);
                    },
                };
                Ok(FileInfo::Single { length, md5sum, name })
            },
        }
    }
}

impl FromData for FileInfo {
    type Model = FileInfoModel;

    open spec fn model(&self) -> FileInfoModel {
        self@
    }

    open spec fn from_value(v: Value) -> Option<FileInfoModel> {
        match v {
            Value::Dict(entries) => file_info_from_entries(entries),
            _ => None,
        }
    }

    fn from_data(data: Data) -> (r: Result<FileInfo, FromDataError>) {
        match data {
            Data::Dict(dict) => FileInfo::from_dictionary(dict),
            _ => Err(FromDataError),
        }
    }
}

} // verus!
