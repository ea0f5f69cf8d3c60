//! The dictionary keys of the torrent-file schema.

use vstd::prelude::*;
use vstd::string::{is_ascii, is_ascii_spec_bytes, StringSliceAdditionalSpecFns};

verus! {

/// The length and the first byte of each key of the schema. No two keys
/// agree in both, so the keys differ from each other.
pub proof fn lemma_keys()
    ensures
        "length".spec_bytes().len() == 6 && "length".spec_bytes()[0] == 108,
        "md5sum".spec_bytes().len() == 6 && "md5sum".spec_bytes()[0] == 109,
        "path".spec_bytes().len() == 4 && "path".spec_bytes()[0] == 112,
        "name".spec_bytes().len() == 4 && "name".spec_bytes()[0] == 110,
        "files".spec_bytes().len() == 5 && "files".spec_bytes()[0] == 102,
        "piece length".spec_bytes().len() == 12 && "piece length".spec_bytes()[0] == 112,
        "pieces".spec_bytes().len() == 6 && "pieces".spec_bytes()[0] == 112,
        "private".spec_bytes().len() == 7 && "private".spec_bytes()[0] == 112,
        "info".spec_bytes().len() == 4 && "info".spec_bytes()[0] == 105,
        "announce".spec_bytes().len() == 8 && "announce".spec_bytes()[0] == 97,
        "announce-list".spec_bytes().len() == 13 && "announce-list".spec_bytes()[0] == 97,
        "comment".spec_bytes().len() == 7 && "comment".spec_bytes()[0] == 99,
        "created by".spec_bytes().len() == 10 && "created by".spec_bytes()[0] == 99,
        "creation date".spec_bytes().len() == 13 && "creation date".spec_bytes()[0] == 99,
        "encoding".spec_bytes().len() == 8 && "encoding".spec_bytes()[0] == 101,
{
    reveal_strlit("length");
    reveal_strlit("md5sum");
    reveal_strlit("path");
    reveal_strlit("name");
    reveal_strlit("files");
    reveal_strlit("piece length");
    reveal_strlit("pieces");
    reveal_strlit("private");
    reveal_strlit("info");
    reveal_strlit("announce");
    reveal_strlit("announce-list");
    reveal_strlit("comment");
    reveal_strlit("created by");
    reveal_strlit("creation date");
    reveal_strlit("encoding");
    assert(is_ascii("length"));
    assert(is_ascii("md5sum"));
    assert(is_ascii("path"));
    assert(is_ascii("name"));
    assert(is_ascii("files"));
    assert(is_ascii("piece length"));
    assert(is_ascii("pieces"));
    assert(is_ascii("private"));
    assert(is_ascii("info"));
    assert(is_ascii("announce"));
    assert(is_ascii("announce-list"));
    assert(is_ascii("comment"));
    assert(is_ascii("created by"));
    assert(is_ascii("creation date"));
    assert(is_ascii("encoding"));
    is_ascii_spec_bytes("length");
    is_ascii_spec_bytes("md5sum");
    is_ascii_spec_bytes("path");
    is_ascii_spec_bytes("name");
    is_ascii_spec_bytes("files");
    is_ascii_spec_bytes("piece length");
    is_ascii_spec_bytes("pieces");
    is_ascii_spec_bytes("private");
    is_ascii_spec_bytes("info");
    is_ascii_spec_bytes("announce");
    is_ascii_spec_bytes("announce-list");
    is_ascii_spec_bytes("comment");
    is_ascii_spec_bytes("created by");
    is_ascii_spec_bytes("creation date");
    is_ascii_spec_bytes("encoding");
}

} // verus!
