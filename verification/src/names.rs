//! Names that are derived from paths: file names, canonical ids and the
//! places of the files that are written.

use crate::text::{
    chars_of, decimal, decimal_text, ends_with, join2, last_part, last_segment, last_start,
    segment_start, strip_suffix, text_eq, text_option, without_suffix,
};
use vstd::prelude::*;
use vstd::string::StrSliceExecFns;
use vstd::string::StringExecFns;

verus! {

/// The file name of a path: what stands behind its last `/`.
pub open spec fn file_name_of(path: Seq<char>) -> Seq<char> {
    last_segment(path, '/')
}

/// The extension of a path: what stands behind the last dot of its file name.
/// A file name without a dot has none, and neither has one whose only dot is
/// its first character.
pub open spec fn extension_of(path: Seq<char>) -> Option<Seq<char>> {
    let name = file_name_of(path);
    if segment_start(name, '.') <= 1 {
        None
    } else {
        Some(last_segment(name, '.'))
    }
}

/// The test "has the extension `ext`".
pub open spec fn has_extension(ext: Seq<char>) -> spec_fn(Seq<char>) -> bool {
    |path: Seq<char>| extension_of(path) == Some(ext)
}

/// The directory `share/<part>` of the package installed at `path`.
pub open spec fn share_directory_of(path: Seq<char>, part: Seq<char>) -> Seq<char> {
    path + "/share/"@ + part
}

/// A name without the ending that tells the kind of document: `.appdata`, or
/// else `.metainfo`.
pub open spec fn without_kind(name: Seq<char>) -> Seq<char> {
    if ends_with(name, ".appdata"@) {
        without_suffix(name, ".appdata"@)
    } else {
        without_suffix(name, ".metainfo"@)
    }
}

/// The canonical id of a metadata document: its file name without a final
/// `.xml` and then without a final `.appdata` or `.metainfo`.
pub open spec fn canonical_id_of(path: Seq<char>) -> Seq<char> {
    without_kind(without_suffix(file_name_of(path), ".xml"@))
}

/// The id under which a document is written: the canonical id of the
/// document, or the name that was asked for, without a final `.xml`.
pub open spec fn output_id_of(meta: Seq<char>, asked: Option<Seq<char>>) -> Seq<char> {
    match asked {
        Some(name) => without_suffix(name, ".xml"@),
        None => canonical_id_of(meta),
    }
}

/// Where a document is written, below the output tree:
/// `metadata/<package>::<id>.xml`.
pub open spec fn metadata_place_of(pkg: Seq<char>, id: Seq<char>) -> Seq<char> {
    "metadata/"@ + pkg + "::"@ + id + ".xml"@
}

/// Where an icon is written, below the output tree:
/// `icons/<size>x<size>/<name>`.
pub open spec fn icon_place_of(size: nat, name: Seq<char>) -> Seq<char> {
    "icons/"@ + decimal_text(size) + "x"@ + decimal_text(size) + "/"@ + name
}

/// Where a fetched file is kept while a package is worked on:
/// `tmp/<file name of the address>`.
pub open spec fn fetch_place_of(url: Seq<char>) -> Seq<char> {
    "tmp/"@ + file_name_of(url)
}

/// The file name of a path.
pub fn file_name(path: &str) -> (r: String)
    ensures
        r@ == file_name_of(path@),
{
    last_part(path, '/')
}

/// The extension of a path.
pub fn extension(path: &str) -> (r: Option<String>)
    ensures
        text_option(r) == extension_of(path@),
{
    let name = file_name(path);
    let cs = chars_of(name.as_str());
    let from = last_start(&cs, '.');
    if from <= 1 {
        None
    } else {
        Some(name.as_str().substring_char(from, cs.len()).to_owned())
    }
}

/// The directory `share/<part>` of the package installed at `path`.
pub fn share_directory(path: &str, part: &str) -> (r: String)
    ensures
        r@ == share_directory_of(path@, part@),
{
    let mut r = join2(path, "/share/");
    r.append(part);
    r
}

/// The canonical id of a metadata document.
pub fn canonical_id(path: &str) -> (r: String)
    ensures
        r@ == canonical_id_of(path@),
{
    let name = file_name(path);
    let bare = strip_suffix(name.as_str(), ".xml");
    let short = strip_suffix(bare.as_str(), ".appdata");
    if !text_eq(short.as_str(), bare.as_str()) {
        short
    } else {
        proof {
            reveal_strlit(".appdata");
            if ends_with(bare@, ".appdata"@) {
                assert(short@.len() == bare@.len() - 8);
            }
        }
        strip_suffix(bare.as_str(), ".metainfo")
    }
}

/// The id under which a document is written.
pub fn output_id(meta: &str, asked: &Option<String>) -> (r: String)
    ensures
        r@ == output_id_of(meta@, text_option(*asked)),
{
    match asked {
        Some(name) => strip_suffix(name.as_str(), ".xml"),
        None => canonical_id(meta),
    }
}

/// Where a document is written, below the output tree.
pub fn metadata_place(pkg: &str, id: &str) -> (r: String)
    ensures
        r@ == metadata_place_of(pkg@, id@),
{
    let mut r = join2("metadata/", pkg);
    r.append("::");
    r.append(id);
    r.append(".xml");
    r
}

/// Where an icon is written, below the output tree.
pub fn icon_place(size: u32, name: &str) -> (r: String)
    ensures
        r@ == icon_place_of(size as nat, name@),
{
    let d = decimal(size);
    let mut r = join2("icons/", d.as_str());
    r.append("x");
    r.append(d.as_str());
    r.append("/");
    r.append(name);
    r
}

/// Where a fetched file is kept.
pub fn fetch_place(url: &str) -> (r: String)
    ensures
        r@ == fetch_place_of(url@),
{
    let name = file_name(url);
    join2("tmp/", name.as_str())
}

} // verus!
