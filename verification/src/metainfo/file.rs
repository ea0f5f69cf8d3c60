//! One file of a multi-file torrent.

use vstd::prelude::*;
use vstd::slice::slice_to_vec;
use vstd::string::StringSliceAdditionalSpecFns;
use crate::bencode::data::{list_view, Data, FromData, FromDataError};
use crate::bencode::dictionary::{optional, required, Dictionary};
use crate::bencode::entries::{all_complete, lemma_lookup_without_other};
use crate::bencode::value::{with_entry, without_key, Value};
use crate::metainfo::keys::lemma_keys;

verus! {

/// A file inside a multi-file torrent.
#[derive(Debug, PartialEq, Clone)]
pub struct File {
    /// The length of the file in bytes.
    pub length: u64,
    /// The MD5 sum of the file as 32 hexadecimal characters, if it is given.
    pub md5sum: Option<[u8; 32]>,
    /// The path of the file, one byte string for each segment.
    pub path: Vec<Vec<u8>>,
}

/// The mathematical model of a [`File`].
pub struct FileModel {
    pub length: u64,
    pub md5sum: Option<Seq<u8>>,
    pub path: Seq<Seq<u8>>,
}

/// The byte strings of a vector of byte vectors.
pub open spec fn strings_view(items: Seq<Vec<u8>>) -> Seq<Seq<u8>> {
    Seq::new(items.len(), |i: int| items[i]@)
}

/// The list items that stand for byte strings.
pub open spec fn string_values(items: Seq<Seq<u8>>) -> Seq<Value> {
    Seq::new(items.len(), |i: int| Value::Bytes(items[i]))
}

/// The bytes of an optional checksum.
pub open spec fn sum_view(sum: Option<[u8; 32]>) -> Option<Seq<u8>> {
    match sum {
        Some(bytes) => Some(bytes@),
        None => None,
    }
}

impl View for File {
    type V = FileModel;

    open spec fn view(&self) -> FileModel {
        FileModel {
            length: self.length,
            md5sum: sum_view(self.md5sum),
            path: strings_view(self.path@),
        }
    }
}

/// The dictionary of a file: `length`, `path` and, where a checksum is
/// given, `md5sum`.
pub open spec fn file_entries(file: FileModel) -> Seq<(Seq<u8>, Value)> {
    let required = with_entry(
        with_entry(Seq::empty(), "length".spec_bytes(), Value::Int(file.length as int)),
        "path".spec_bytes(),
        Value::List(string_values(file.path)),
    );
    match file.md5sum {
        Some(sum) => with_entry(required, "md5sum".spec_bytes(), Value::Bytes(sum)),
        None => required,
    }
}

/// The file that a dictionary describes: `length` must be a non-negative
/// integer, `path` a list of byte strings, and `md5sum`, where it is there,
/// a byte string of 32 bytes. Other keys are not looked at.
pub open spec fn file_from_entries(entries: Seq<(Seq<u8>, Value)>) -> Option<FileModel> {
    match (
        required::<u64>(entries, "length".spec_bytes()),
        optional::<Vec<u8>>(entries, "md5sum".spec_bytes()),
        required::<Vec<Vec<u8>>>(entries, "path".spec_bytes()),
    ) {
        (Some(length), Some(md5sum), Some(path)) => if (md5sum matches Some(sum) && sum.len()
            != 32) {
            None
        } else {
            Some(FileModel { length, md5sum, path })
        },
        _ => None,
    }
}

/// A list of byte strings is a value that can stand on the wire.
pub proof fn lemma_string_values(items: Seq<Seq<u8>>)
    ensures
        Value::List(string_values(items)).encodable(),
{
    let values = string_values(items);
    assert forall|i: int| 0 <= i < values.len() implies (#[trigger] values[i]).encodable() by {
        assert(values[i] == Value::Bytes(items[i]));
    }
}

/// A list of byte strings as bencode values.
pub fn strings_to_data(items: &Vec<Vec<u8>>) -> (list: Vec<Data>)
    ensures
        list_view(list@) == string_values(strings_view(items@)),
{
    let mut list: Vec<Data> = Vec::new();
    let mut i: usize = 0;
    while i < items.len()
        invariant
            i <= items.len(),
            list.len() == i,
            forall|k: int| 0 <= k < i ==> (#[trigger] list@[k])@ == Value::Bytes(items@[k]@),
        decreases items.len() - i,
    {
        list.push(Data::Bytes(slice_to_vec(items[i].as_slice())));
        i += 1;
    }
    assert(list_view(list@) =~= string_values(strings_view(items@)));
    list
}

/// The 32 bytes of `bytes` as an array; nothing where `bytes` has another
/// length.
pub fn checksum_from(bytes: &[u8]) -> (sum: Option<[u8; 32]>)
    ensures
        bytes@.len() == 32 ==> (sum matches Some(a) && a@ == bytes@),
        bytes@.len() != 32 ==> sum is None,
{
    if bytes.len() != 32 {
        return None;
    }
    let mut sum = [0u8;32];
    let mut i: usize = 0;
    while i < 32
        invariant
            i <= 32,
            bytes@.len() == 32,
            forall|k: int| 0 <= k < i ==> sum@[k] == bytes@[k],
        decreases 32 - i,
    {
        sum[i] = bytes[i];
        i += 1;
    }
    assert(sum@ =~= bytes@);
    Some(sum)
}

impl File {
    /// The dictionary that describes the file.
    pub fn to_dictionary(&self) -> (dict: Dictionary)
        ensures
            dict@ == file_entries(self@),
            dict.wf(),
            all_complete(dict@),
    {
        let mut dict = Dictionary::new();
        dict.insert_str("length", Data::UInt(self.length));
        let path = Data::List(strings_to_data(&self.path));
        proof {
            lemma_string_values(strings_view(self.path@));
        }
        dict.insert_str("path", path);
        match &self.md5sum {
            Some(sum) => {
                dict.insert_str("md5sum", Data::Bytes(slice_to_vec(sum.as_slice())));
            },
            None => {},
        }
        dict
    }

    /// The file that `dict` describes, or an error where a key is missing
    /// or a value has the wrong kind or length.
    pub fn from_dictionary(dict: Dictionary) -> (r: Result<File, FromDataError>)
        requires
            dict.wf(),
        ensures
            match file_from_entries(dict@) {
                Some(file) => r matches Ok(x) && x@ == file,
                None => r is Err,
            },
    {
        let ghost entries = dict@;
        let mut dict = dict;
        proof {
            lemma_keys();
            lemma_lookup_without_other(dict@, "length".spec_bytes(), "md5sum".spec_bytes());
            lemma_lookup_without_other(dict@, "length".spec_bytes(), "path".spec_bytes());
            lemma_lookup_without_other(
                without_key(dict@, "length".spec_bytes()),
                "md5sum".spec_bytes(),
                "path".spec_bytes(),
            );
        }
        let length = match dict.remove_as::<u64>("length") {
            Ok(length) => length,
            Err(e) => {
                return Err(e);
            },
        };
        let md5sum = match dict.remove_as_opt::<Vec<u8>>("md5sum") {
            Ok(Some(bytes)) => match checksum_from(bytes.as_slice()) {
                Some(sum) => Some(sum),
                None => {
                    return Err(FromDataError);
                },
            },
            Ok(None) => None,
            Err(e) => {
                return Err(e);
            },
        };
        let path = match dict.remove_as::<Vec<Vec<u8>>>("path") {
            Ok(path) => path,
            Err(e) => {
                return Err(e);
            },
        };
        let file = File { length, md5sum, path };
        assert(file@.path =~= file_from_entries(entries).unwrap().path);
        Ok(file)
    }
}

impl File {
    /// The bencode value that describes the file.
    pub fn to_data(&self) -> (data: Data)
        ensures
            data@ == Value::Dict(file_entries(self@)),
            data.wf(),
            data@.complete(),
    {
        Data::Dict(self.to_dictionary())
    }
}

impl FromData for File {
    type Model = FileModel;

    open spec fn model(&self) -> FileModel {
        self@
    }

    open spec fn from_value(v: Value) -> Option<FileModel> {
        match v {
            Value::Dict(entries) => file_from_entries(entries),
            _ => None,
        }
    }

    fn from_data(data: Data) -> (r: Result<File, FromDataError>) {
        match data {
            Data::Dict(dict) => File::from_dictionary(dict),
            _ => Err(FromDataError),
        }
    }
}

} // verus!
