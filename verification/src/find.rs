//! From the files of a package to the documents that are written for it.
//!
//! The functions here take what was read and say what is to be written.
//! Reading, fetching and writing are left to the caller.

use crate::icons::{assets_model, IconAsset, IconAssetModel};
use crate::matcher::{
    genmeta, matched, MatchResult, MatchResultModel, MetaFile, MetaFileModel,
};
use crate::names::{
    extension, fetch_place, fetch_place_of, has_extension, metadata_place, metadata_place_of,
    output_id, output_id_of,
};
use crate::normalize::{
    normalize_desktop, normalize_plain, normalized_desktop, normalized_plain, Skip,
};
pub use crate::overrides::PkgData;
use crate::overrides::PkgDataModel;
use crate::sequences::lemma_filter_step;
use crate::text::{chars_of, text_eq, text_option, texts_model};
use crate::tree::ElementModel;
use crate::xml::{parsed_document, read_document, write_document, written_document};
use vstd::prelude::*;
use vstd::string::StrSliceExecFns;
use vstd::string::StringExecFns;

verus! {

/// A document that is ready to be written: its place below the output tree
/// and its text.
#[derive(Debug)]
pub struct Document {
    pub place: String,
    pub text: String,
}

/// The view of a `Document`.
pub struct DocumentModel {
    pub place: Seq<char>,
    pub text: Seq<char>,
}

impl View for Document {
    type V = DocumentModel;

    open spec fn view(&self) -> DocumentModel {
        DocumentModel { place: self.place@, text: self.text@ }
    }
}

/// Where the metadata of a package comes from.
#[derive(Debug)]
pub enum MetaSource {
    /// From the address that the settings name.
    Fetch(String),
    /// From the directory of that name below `share`.
    Directory(String),
    /// The package has no metadata.
    Nowhere,
}

/// The view of a `MetaSource`.
pub enum MetaSourceModel {
    Fetch(Seq<char>),
    Directory(Seq<char>),
    Nowhere,
}

impl View for MetaSource {
    type V = MetaSourceModel;

    open spec fn view(&self) -> MetaSourceModel {
        match self {
            MetaSource::Fetch(url) => MetaSourceModel::Fetch(url@),
            MetaSource::Directory(name) => MetaSourceModel::Directory(name@),
            MetaSource::Nowhere => MetaSourceModel::Nowhere,
        }
    }
}

/// The zero-width space, which upstream documents sometimes hold and which
/// must not reach the output.
pub open spec fn zero_width_space() -> char {
    '\u{200b}'
}

/// The test "is no zero-width space".
pub open spec fn is_visible() -> spec_fn(char) -> bool {
    |c: char| c != zero_width_space()
}

/// A text without its zero-width spaces.
pub open spec fn sanitized(text: Seq<char>) -> Seq<char> {
    text.filter(is_visible())
}

/// What `xmlparse` makes of the outcome of reading, normalizing and writing.
pub open spec fn emitted(
    place: Seq<char>,
    component: Option<Option<ElementModel>>,
) -> Result<DocumentModel, Skip> {
    match component {
        None => Err(Skip::Malformed),
        Some(None) => Err(Skip::NotComponent),
        Some(Some(c)) => match written_document(c) {
            Some(text) => Ok(DocumentModel { place, text: sanitized(text) }),
            None => Err(Skip::Unwritable),
        },
    }
}

/// The document that is written for the metadata at `meta` with the text
/// `text`, paired with the desktop entry at `desktop`.
pub open spec fn desktop_document(
    meta: Seq<char>,
    text: Seq<char>,
    desktop: Seq<char>,
    pkg: Seq<char>,
    settings: PkgDataModel,
    icons: Seq<IconAssetModel>,
) -> Result<DocumentModel, Skip> {
    emitted(
        metadata_place_of(pkg, output_id_of(meta, settings.outputmetainfo)),
        match parsed_document(text) {
            Some(doc) => Some(normalized_desktop(doc, desktop, pkg, settings.id, icons)),
            None => None,
        },
    )
}

/// The document that is written for the metadata at `meta` with the text
/// `text`, which has no desktop entry.
pub open spec fn plain_document(meta: Seq<char>, text: Seq<char>, pkg: Seq<char>) -> Result<
    DocumentModel,
    Skip,
> {
    emitted(
        metadata_place_of(pkg, output_id_of(meta, None)),
        match parsed_document(text) {
            Some(doc) => Some(normalized_plain(doc, pkg)),
            None => None,
        },
    )
}

/// The view of a result.
pub open spec fn document_result(r: Result<Document, Skip>) -> Result<DocumentModel, Skip> {
    match r {
        Ok(d) => Ok(d@),
        Err(why) => Err(why),
    }
}

/// What the matcher gives for a package whose metadata is fetched from `url`:
/// nothing at all where the fetch gave no text, else what it gives for the
/// fetched file as the one document of the package.
pub open spec fn fetched_match(
    url: Seq<char>,
    text: Option<Seq<char>>,
    desktops: Seq<Seq<char>>,
    pkg: Seq<char>,
    settings: PkgDataModel,
) -> MatchResultModel {
    match text {
        Some(t) => matched(
            seq![MetaFileModel { path: fetch_place_of(url), text: Some(t) }],
            desktops,
            pkg,
            settings,
        ),
        None => MatchResultModel { pairings: Seq::empty(), unmatched: Seq::empty() },
    }
}

/// Where the metadata of a package comes from: the address that was set, else
/// the directory `metainfo`, else the directory `appdata`, each if it exists.
pub open spec fn source_of(
    address: Option<Seq<char>>,
    has_metainfo: bool,
    has_appdata: bool,
) -> MetaSourceModel {
    match address {
        Some(url) => MetaSourceModel::Fetch(url),
        None => if has_metainfo {
            MetaSourceModel::Directory("metainfo"@)
        } else if has_appdata {
            MetaSourceModel::Directory("appdata"@)
        } else {
            MetaSourceModel::Nowhere
        },
    }
}

/// Those of the listed files that have the extension `ext`, in their order.
pub fn findfiles(listed: &Vec<String>, ext: &str) -> (r: Vec<String>)
    ensures
        texts_model(r@) == texts_model(listed@).filter(has_extension(ext@)),
{
    let ghost m = texts_model(listed@);
    let ghost p = has_extension(ext@);
    let mut r: Vec<String> = Vec::new();
    let mut i: usize = 0;
    proof {
        reveal(Seq::filter);
        assert(m.take(0).filter(p) =~= Seq::empty());
        assert(texts_model(r@) =~= Seq::empty());
    }
    while i < listed.len()
        invariant
            i <= listed@.len(),
            m == texts_model(listed@),
            p == has_extension(ext@),
            texts_model(r@) == m.take(i as int).filter(p),
        decreases listed@.len() - i,
    {
        proof {
            lemma_filter_step(m, p, i as int);
        }
        let keep = match extension(listed[i].as_str()) {
            Some(found) => text_eq(found.as_str(), ext),
            None => false,
        };
        if keep {
            let file = listed[i].clone();
            proof {
                assert(texts_model(r@.push(file)) =~= texts_model(r@).push(file@));
            }
            r.push(file);
        }
        i += 1;
    }
    proof {
        assert(m.take(i as int) =~= m);
    }
    r
}

/// A text without its zero-width spaces.
pub fn sanitize(text: &str) -> (r: String)
    ensures
        r@ == sanitized(text@),
{
    let cs = chars_of(text);
    let n = cs.len();
    let ghost p = is_visible();
    let mut out = String::new();
    let mut from: usize = 0;
    let mut i: usize = 0;
    proof {
        reveal(Seq::filter);
        assert(text@.take(0).filter(p) =~= Seq::empty());
        assert(text@.subrange(0, 0) =~= Seq::empty());
    }
    while i < n
        invariant
            cs@ == text@,
            n == cs@.len(),
            p == is_visible(),
            from <= i <= n,
            out@ + text@.subrange(from as int, i as int) == text@.take(i as int).filter(p),
        decreases n - i,
    {
        proof {
            lemma_filter_step(text@, p, i as int);
        }
        if cs[i] == '\u{200b}' {
            let ghost before = out@;
            out.append(text.substring_char(from, i));
            from = i + 1;
            proof {
                assert(text@.subrange(from as int, from as int) =~= Seq::empty());
                assert(out@ + Seq::<char>::empty() =~= out@);
            }
        } else {
            proof {
                assert(text@.subrange(from as int, i + 1) =~= text@.subrange(
                    from as int,
                    i as int,
                ).push(text@[i as int]));
                assert(out@ + text@.subrange(from as int, i as int).push(text@[i as int]) =~= (out@
                    + text@.subrange(from as int, i as int)).push(text@[i as int]));
            }
        }
        i += 1;
    }
    out.append(text.substring_char(from, n));
    proof {
        assert(text@.take(n as int) =~= text@);
    }
    out
}

/// Writes a component and makes the document of it.
fn emit(place: String, component: &crate::tree::XmlElement) -> (r: Result<Document, Skip>)
    ensures
        document_result(r) == emitted(place@, Some(Some(component@))),
{
    match write_document(component) {
        Ok(text) => Ok(Document { place, text: sanitize(text.as_str()) }),
        Err(why) => Err(why),
    }
}

/// The document for the metadata at the path `meta` with the text `text`,
/// paired with the desktop entry at the path `desktop`, for the package
/// `pkg`. `icons` are the icons that were produced for it.
///
/// The text is read as XML, normalized for a desktop entry, written with
/// indentation and freed of zero-width spaces. It goes to
/// `metadata/<package>::<id>.xml`, where the id is the name that the settings
/// ask for or the canonical id of `meta`.
pub fn xmlparse(
    meta: &str,
    text: &str,
    desktop: &str,
    pkg: &str,
    pkgdata: &PkgData,
    icons: &Vec<IconAsset>,
) -> (r: Result<Document, Skip>)
    ensures
        document_result(r) == desktop_document(
            meta@,
            text@,
            desktop@,
            pkg@,
            pkgdata@,
            assets_model(icons@),
        ),
{
    let doc = match read_document(text) {
        Ok(doc) => doc,
        Err(why) => {
            return Err(why);
        },
    };
    let component = match normalize_desktop(doc, desktop, pkg, &pkgdata.id, icons) {
        Ok(c) => c,
        Err(why) => {
            return Err(why);
        },
    };
    let id = output_id(meta, &pkgdata.outputmetainfo);
    emit(metadata_place(pkg, id.as_str()), &component)
}

/// The document for the metadata at the path `meta` with the text `text`,
/// which has no desktop entry, for the package `pkg`.
pub fn xmlparse_nondesktop(meta: &str, text: &str, pkg: &str) -> (r: Result<Document, Skip>)
    ensures
        document_result(r) == plain_document(meta@, text@, pkg@),
{
    let doc = match read_document(text) {
        Ok(doc) => doc,
        Err(why) => {
            return Err(why);
        },
    };
    let component = match normalize_plain(doc, pkg) {
        Ok(c) => c,
        Err(why) => {
            return Err(why);
        },
    };
    let id = output_id(meta, &None);
    emit(metadata_place(pkg, id.as_str()), &component)
}

/// The pairings for a package whose metadata was fetched from `metaurl`.
///
/// `text` is the text of the fetched file, and `None` where the fetch failed:
/// then nothing is paired and nothing is unmatched, so that no document is
/// made of a file that is not there. Otherwise the one document of the
/// package is the fetched file, kept at the place that `fetch_place` gives for
/// `metaurl`. `desktops` are the paths of the desktop entries of the package.
pub fn dlmeta(
    metaurl: &str,
    text: Option<String>,
    desktops: &Vec<String>,
    pkg: &str,
    pkgdata: &PkgData,
) -> (r: MatchResult)
    ensures
        r@ == fetched_match(metaurl@, text_option(text), texts_model(desktops@), pkg@, pkgdata@),
{
    match text {
        Some(t) => {
            let mut metas: Vec<MetaFile> = Vec::new();
            metas.push(MetaFile { path: fetch_place(metaurl), text: Some(t) });
            proof {
                assert(crate::matcher::metas_model(metas@) =~= seq![
                    MetaFileModel { path: fetch_place_of(metaurl@), text: Some(t@) },
                ]);
            }
            genmeta(&metas, desktops, pkg, pkgdata)
        },
        None => {
            let r = MatchResult { pairings: Vec::new(), unmatched: Vec::new() };
            proof {
                assert(r@.pairings =~= Seq::empty());
                assert(r@.unmatched =~= Seq::empty());
            }
            r
        },
    }
}

/// Where the metadata of a package comes from.
pub fn metadata_source(address: Option<String>, has_metainfo: bool, has_appdata: bool) -> (r:
    MetaSource)
    ensures
        r@ == source_of(text_option(address), has_metainfo, has_appdata),
{
    match address {
        Some(url) => MetaSource::Fetch(url),
        None => if has_metainfo {
            MetaSource::Directory("metainfo".to_owned())
        } else if has_appdata {
            MetaSource::Directory("appdata".to_owned())
        } else {
            MetaSource::Nowhere
        },
    }
}

} // verus!
