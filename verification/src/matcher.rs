//! Pairing of metadata documents with desktop entries.
//!
//! A package may ship any number of metadata documents and of desktop
//! entries. `genmeta` says which document belongs to which entry, and
//! which documents belong to none.

use crate::names::{canonical_id, canonical_id_of, file_name, file_name_of};
use crate::overrides::{PkgData, PkgDataModel};
use crate::sequences::{first_where, lemma_filter_step, lemma_first_where, lemma_first_where_is};
use crate::text::{
    contains, contains_text, join2, lowercase_of, text_eq, text_option, texts_model, to_lowercase,
};
use crate::tree::{lemma_element_view, named, ElementModel, Node, NodeModel, XmlElement};
use crate::xml::{parsed_document, read_document};
use vstd::prelude::*;

verus! {

/// A metadata document as it was found: its path and, where the file could be
/// read, its text.
#[derive(Debug)]
pub struct MetaFile {
    pub path: String,
    pub text: Option<String>,
}

/// A metadata document together with the desktop entry that it describes and
/// the settings that apply to it.
#[derive(Debug)]
pub struct Pairing {
    pub meta: String,
    pub desktop: String,
    pub settings: PkgData,
}

/// What the matcher found for one package.
#[derive(Debug)]
pub struct MatchResult {
    /// The documents that describe a desktop entry, in the order in which the
    /// documents were given.
    pub pairings: Vec<Pairing>,
    /// The paths of the other documents, in the same order.
    pub unmatched: Vec<String>,
}

/// The view of a `MetaFile`.
pub struct MetaFileModel {
    pub path: Seq<char>,
    pub text: Option<Seq<char>>,
}

/// The view of a `Pairing`.
pub struct PairingModel {
    pub meta: Seq<char>,
    pub desktop: Seq<char>,
    pub settings: PkgDataModel,
}

/// The view of a `MatchResult`.
pub struct MatchResultModel {
    pub pairings: Seq<PairingModel>,
    pub unmatched: Seq<Seq<char>>,
}

impl View for MetaFile {
    type V = MetaFileModel;

    open spec fn view(&self) -> MetaFileModel {
        MetaFileModel { path: self.path@, text: text_option(self.text) }
    }
}

impl View for Pairing {
    type V = PairingModel;

    open spec fn view(&self) -> PairingModel {
        PairingModel { meta: self.meta@, desktop: self.desktop@, settings: self.settings@ }
    }
}

/// The views of a sequence of documents.
pub open spec fn metas_model(s: Seq<MetaFile>) -> Seq<MetaFileModel> {
    s.map_values(|m: MetaFile| m@)
}

/// The views of a sequence of pairings.
pub open spec fn pairings_model(s: Seq<Pairing>) -> Seq<PairingModel> {
    s.map_values(|p: Pairing| p@)
}

impl View for MatchResult {
    type V = MatchResultModel;

    open spec fn view(&self) -> MatchResultModel {
        MatchResultModel {
            pairings: pairings_model(self.pairings@),
            unmatched: texts_model(self.unmatched@),
        }
    }
}

/// `v` is one of the two types that mark a desktop application.
pub open spec fn is_desktop_type(v: Option<Seq<char>>) -> bool {
    v == Some("desktop"@) || v == Some("desktop-application"@)
}

/// The first `id` child of a document.
pub open spec fn id_child(doc: ElementModel) -> Option<ElementModel> {
    if doc.has_child("id"@) {
        Some(doc.children[doc.child_position("id"@)]->Element_0)
    } else {
        None
    }
}

/// The document describes a desktop application: its root, or its `id` child,
/// has the type `desktop` or `desktop-application`.
pub open spec fn desktop_linked(doc: ElementModel) -> bool {
    is_desktop_type(doc.attribute("type"@)) || match id_child(doc) {
        Some(id) => is_desktop_type(id.attribute("type"@)),
        None => false,
    }
}

/// The text of the `id` child of a document: its first child, where that is
/// text.
pub open spec fn id_text(doc: ElementModel) -> Option<Seq<char>> {
    match id_child(doc) {
        Some(id) => if id.children.len() > 0 {
            match id.children[0] {
                NodeModel::Text(t) => Some(t),
                _ => None,
            }
        } else {
            None
        },
        None => None,
    }
}

/// The test "has the file name `name`".
pub open spec fn has_file_name(name: Seq<char>) -> spec_fn(Seq<char>) -> bool {
    |d: Seq<char>| file_name_of(d) == name
}

/// The test "has a file name that holds `id`, letter case aside".
pub open spec fn holds_id(id: Seq<char>) -> spec_fn(Seq<char>) -> bool {
    |d: Seq<char>| contains_text(lowercase_of(file_name_of(d)), lowercase_of(id))
}

/// The test "has a file name that holds `org` or `com`".
pub open spec fn holds_vendor() -> spec_fn(Seq<char>) -> bool {
    |d: Seq<char>| contains_text(file_name_of(d), "org"@) || contains_text(file_name_of(d), "com"@)
}

/// The position of the first item that passes `p`, if there is one.
pub open spec fn first_entry(desktops: Seq<Seq<char>>, p: spec_fn(Seq<char>) -> bool) -> Option<
    int,
> {
    let i = first_where(desktops, p);
    if i < desktops.len() {
        Some(i)
    } else {
        None
    }
}

/// The position of the item that passes `p`, if exactly one does.
pub open spec fn only_entry(desktops: Seq<Seq<char>>, p: spec_fn(Seq<char>) -> bool) -> Option<
    int,
> {
    if desktops.filter(p).len() == 1 {
        Some(first_where(desktops, p))
    } else {
        None
    }
}

/// The first rule: the text of the document's `id`, if it is the file name of
/// a desktop entry.
pub open spec fn by_id(id: Option<Seq<char>>, desktops: Seq<Seq<char>>) -> Option<int> {
    match id {
        Some(t) => first_entry(desktops, has_file_name(t)),
        None => None,
    }
}

/// The second and third rule: the entry called `stem` with `.desktop`.
pub open spec fn by_stem(stem: Seq<char>, desktops: Seq<Seq<char>>) -> Option<int> {
    first_entry(desktops, has_file_name(stem + ".desktop"@))
}

/// `a` if it is some position, else `b`.
pub open spec fn or_else(a: Option<int>, b: Option<int>) -> Option<int> {
    if a is Some {
        a
    } else {
        b
    }
}

/// The position among `desktops` of the desktop entry for a document with the
/// `id` text `id` and the canonical id `canonical`, in the package `pkg`. Five
/// rules are tried in this order, and the first that gives an entry decides:
/// the text of the `id`; the canonical id with `.desktop`; the package name
/// with `.desktop`; the only entry whose file name holds the canonical id,
/// letter case aside; the only entry whose file name holds `org` or `com`.
pub open spec fn resolved_entry(
    id: Option<Seq<char>>,
    canonical: Seq<char>,
    pkg: Seq<char>,
    desktops: Seq<Seq<char>>,
) -> Option<int> {
    or_else(
        by_id(id, desktops),
        or_else(
            by_stem(canonical, desktops),
            or_else(
                by_stem(pkg, desktops),
                or_else(
                    only_entry(desktops, holds_id(canonical)),
                    only_entry(desktops, holds_vendor()),
                ),
            ),
        ),
    )
}

/// The position of the desktop entry that the document `m` describes: `m`
/// must be readable, well-formed and describe a desktop application, and one
/// of the rules must give an entry.
pub open spec fn entry_of(m: MetaFileModel, desktops: Seq<Seq<char>>, pkg: Seq<char>) -> Option<
    int,
> {
    match m.text {
        Some(text) => match parsed_document(text) {
            Some(doc) => if desktop_linked(doc) {
                resolved_entry(id_text(doc), canonical_id_of(m.path), pkg, desktops)
            } else {
                None
            },
            None => None,
        },
        None => None,
    }
}

/// The positions of the desktop entries for the first `k` documents, for each
/// document that has one, paired with the position of the document.
pub open spec fn pairs_upto(
    metas: Seq<MetaFileModel>,
    desktops: Seq<Seq<char>>,
    pkg: Seq<char>,
    k: nat,
) -> Seq<(int, int)>
    decreases k,
{
    if k == 0 || k > metas.len() {
        Seq::empty()
    } else {
        let before = pairs_upto(metas, desktops, pkg, (k - 1) as nat);
        match entry_of(metas[k - 1], desktops, pkg) {
            Some(d) => before.push((k - 1, d)),
            None => before,
        }
    }
}

/// The paths of those of the first `k` documents that have no desktop entry.
pub open spec fn unmatched_upto(
    metas: Seq<MetaFileModel>,
    desktops: Seq<Seq<char>>,
    pkg: Seq<char>,
    k: nat,
) -> Seq<Seq<char>>
    decreases k,
{
    if k == 0 || k > metas.len() {
        Seq::empty()
    } else {
        let before = unmatched_upto(metas, desktops, pkg, (k - 1) as nat);
        match entry_of(metas[k - 1], desktops, pkg) {
            Some(_) => before,
            None => before.push(metas[k - 1].path),
        }
    }
}

/// The settings that apply to the pairings: those of the package where there
/// is one pairing, none where there are several, so that what was set for one
/// component is never given to two.
pub open spec fn settings_for(count: nat, settings: PkgDataModel) -> PkgDataModel {
    if count == 1 {
        settings
    } else {
        PkgDataModel::none()
    }
}

/// What the matcher gives for the documents `metas` and the desktop entries
/// `desktops` of the package `pkg`.
///
/// One document and one entry are paired as they are. Otherwise each
/// document is paired with the entry that `entry_of` gives, and the documents
/// without one are unmatched.
pub open spec fn matched(
    metas: Seq<MetaFileModel>,
    desktops: Seq<Seq<char>>,
    pkg: Seq<char>,
    settings: PkgDataModel,
) -> MatchResultModel {
    if metas.len() == 1 && desktops.len() == 1 {
        MatchResultModel {
            pairings: seq![PairingModel { meta: metas[0].path, desktop: desktops[0], settings }],
            unmatched: Seq::empty(),
        }
    } else {
        let pairs = pairs_upto(metas, desktops, pkg, metas.len());
        MatchResultModel {
            pairings: pairs.map_values(
                |p: (int, int)|
                    PairingModel {
                        meta: metas[p.0].path,
                        desktop: desktops[p.1],
                        settings: settings_for(pairs.len(), settings),
                    },
            ),
            unmatched: unmatched_upto(metas, desktops, pkg, metas.len()),
        }
    }
}

/// The fast path: one document and one desktop entry are paired, whatever
/// they hold, and the settings of the package apply.
pub proof fn lemma_single_pair(
    metas: Seq<MetaFileModel>,
    desktops: Seq<Seq<char>>,
    pkg: Seq<char>,
    settings: PkgDataModel,
)
    requires
        metas.len() == 1,
        desktops.len() == 1,
    ensures
        matched(metas, desktops, pkg, settings).pairings == seq![
            PairingModel { meta: metas[0].path, desktop: desktops[0], settings },
        ],
        matched(metas, desktops, pkg, settings).unmatched == Seq::<Seq<char>>::empty(),
{
}

/// The `id` decides first: where the text of a document's `id` is the file
/// name of a desktop entry, the entry that is found has that file name,
/// whatever the other rules would give. Of several entries with that file
/// name the first is found.
pub proof fn lemma_id_decides(
    id: Seq<char>,
    canonical: Seq<char>,
    pkg: Seq<char>,
    desktops: Seq<Seq<char>>,
    i: int,
)
    requires
        0 <= i < desktops.len(),
        file_name_of(desktops[i]) == id,
    ensures
        resolved_entry(Some(id), canonical, pkg, desktops) is Some,
        0 <= resolved_entry(Some(id), canonical, pkg, desktops)->0 <= i,
        file_name_of(desktops[resolved_entry(Some(id), canonical, pkg, desktops)->0]) == id,
{
    let p = has_file_name(id);
    lemma_first_where(desktops, p);
    if first_where(desktops, p) > i {
        assert(!p(desktops[i]));
    }
}

/// A rule gives a position among the entries.
pub proof fn lemma_resolved_in_range(
    id: Option<Seq<char>>,
    canonical: Seq<char>,
    pkg: Seq<char>,
    desktops: Seq<Seq<char>>,
)
    ensures
        resolved_entry(id, canonical, pkg, desktops) matches Some(i) ==> 0 <= i < desktops.len(),
{
    if let Some(t) = id {
        lemma_first_where(desktops, has_file_name(t));
    }
    lemma_first_where(desktops, has_file_name(canonical + ".desktop"@));
    lemma_first_where(desktops, has_file_name(pkg + ".desktop"@));
    lemma_only_entry(desktops, holds_id(canonical));
    lemma_only_entry(desktops, holds_vendor());
}

/// The only item that passes a test stands at a position of the sequence.
pub proof fn lemma_only_entry(desktops: Seq<Seq<char>>, p: spec_fn(Seq<char>) -> bool)
    ensures
        only_entry(desktops, p) matches Some(i) ==> 0 <= i < desktops.len() && p(desktops[i]),
{
    lemma_first_where(desktops, p);
    if first_where(desktops, p) >= desktops.len() {
        crate::sequences::lemma_filter_none(desktops, p);
    }
}

/// Every document is either paired or unmatched: the two lists together are
/// as long as the list of documents.
pub proof fn lemma_every_document_counted(
    metas: Seq<MetaFileModel>,
    desktops: Seq<Seq<char>>,
    pkg: Seq<char>,
    settings: PkgDataModel,
)
    ensures
        matched(metas, desktops, pkg, settings).pairings.len() + matched(
            metas,
            desktops,
            pkg,
            settings,
        ).unmatched.len() == metas.len(),
{
    lemma_counted_upto(metas, desktops, pkg, metas.len());
}

/// Each of the first `k` documents is paired or unmatched.
proof fn lemma_counted_upto(
    metas: Seq<MetaFileModel>,
    desktops: Seq<Seq<char>>,
    pkg: Seq<char>,
    k: nat,
)
    requires
        k <= metas.len(),
    ensures
        pairs_upto(metas, desktops, pkg, k).len() + unmatched_upto(metas, desktops, pkg, k).len()
            == k,
    decreases k,
{
    if k > 0 {
        lemma_counted_upto(metas, desktops, pkg, (k - 1) as nat);
    }
}

/// Without desktop entries each of the first `k` documents is unmatched.
proof fn lemma_unmatched_without_entries(metas: Seq<MetaFileModel>, pkg: Seq<char>, k: nat)
    requires
        k <= metas.len(),
    ensures
        pairs_upto(metas, Seq::empty(), pkg, k) == Seq::<(int, int)>::empty(),
        unmatched_upto(metas, Seq::empty(), pkg, k) == metas.take(k as int).map_values(
            |m: MetaFileModel| m.path,
        ),
    decreases k,
{
    let none = Seq::<Seq<char>>::empty();
    if k > 0 {
        lemma_unmatched_without_entries(metas, pkg, (k - 1) as nat);
        let m = metas[k - 1];
        assert(entry_of(m, none, pkg) is None) by {
            if let Some(text) = m.text {
                if let Some(doc) = parsed_document(text) {
                    lemma_resolved_in_range(id_text(doc), canonical_id_of(m.path), pkg, none);
                }
            }
        }
        assert(unmatched_upto(metas, none, pkg, k) =~= metas.take(k as int).map_values(
            |m: MetaFileModel| m.path,
        ));
    } else {
        assert(unmatched_upto(metas, none, pkg, k) =~= metas.take(k as int).map_values(
            |m: MetaFileModel| m.path,
        ));
    }
}

/// Without desktop entries every document is unmatched, and none is lost.
pub proof fn lemma_no_entries(metas: Seq<MetaFileModel>, pkg: Seq<char>, settings: PkgDataModel)
    ensures
        matched(metas, Seq::empty(), pkg, settings).pairings == Seq::<PairingModel>::empty(),
        matched(metas, Seq::empty(), pkg, settings).unmatched == metas.map_values(
            |m: MetaFileModel| m.path,
        ),
{
    lemma_unmatched_without_entries(metas, pkg, metas.len());
    assert(metas.take(metas.len() as int) =~= metas);
    assert(matched(metas, Seq::empty(), pkg, settings).pairings =~= Seq::<PairingModel>::empty());
}

/// Settings are never shared: with more than one pairing no pairing has any
/// setting, and the one pairing of a package has the settings of the package.
pub proof fn lemma_settings_not_shared(
    metas: Seq<MetaFileModel>,
    desktops: Seq<Seq<char>>,
    pkg: Seq<char>,
    settings: PkgDataModel,
    i: int,
)
    requires
        0 <= i < matched(metas, desktops, pkg, settings).pairings.len(),
    ensures
        matched(metas, desktops, pkg, settings).pairings[i].settings == if matched(
            metas,
            desktops,
            pkg,
            settings,
        ).pairings.len() == 1 {
            settings
        } else {
            PkgDataModel::none()
        },
{
}

/// A position as a mathematical integer.
pub open spec fn position_option(o: Option<usize>) -> Option<int> {
    match o {
        Some(i) => Some(i as int),
        None => None,
    }
}

/// Whether an attribute value is one of the two types that mark a desktop
/// application.
fn marks_desktop(v: &Option<String>) -> (r: bool)
    ensures
        r == is_desktop_type(text_option(*v)),
{
    match v {
        Some(t) => text_eq(t.as_str(), "desktop") || text_eq(t.as_str(), "desktop-application"),
        None => false,
    }
}

/// The position of the first `id` child of a document, where it has one.
fn id_position(doc: &XmlElement) -> (r: Option<usize>)
    ensures
        match r {
            Some(i) => i < doc.children@.len() && doc.children@[i as int] is Element && id_child(
                doc@,
            ) == Some(doc.children@[i as int]@->Element_0),
            None => id_child(doc@) is None,
        },
{
    let i = doc.child_position("id");
    proof {
        lemma_element_view(*doc);
        lemma_first_where(doc@.children, named("id"@));
    }
    if i < doc.children.len() {
        Some(i)
    } else {
        None
    }
}

/// Whether a document describes a desktop application.
pub fn is_desktop_linked(doc: &XmlElement) -> (r: bool)
    ensures
        r == desktop_linked(doc@),
{
    if marks_desktop(&doc.attribute("type")) {
        return true;
    }
    match id_position(doc) {
        Some(i) => match &doc.children[i] {
            Node::Element(id) => marks_desktop(&id.attribute("type")),
            _ => false,
        },
        None => false,
    }
}

/// The text of the `id` child of a document.
pub fn document_id(doc: &XmlElement) -> (r: Option<String>)
    ensures
        text_option(r) == id_text(doc@),
{
    match id_position(doc) {
        Some(i) => match &doc.children[i] {
            Node::Element(id) => {
                proof {
                    lemma_element_view(*id);
                }
                if id.children.len() > 0 {
                    match &id.children[0] {
                        Node::Text(t) => Some(t.clone()),
                        _ => None,
                    }
                } else {
                    None
                }
            },
            _ => None,
        },
        None => None,
    }
}

/// The position of the first desktop entry with the file name `name`.
fn find_named(desktops: &Vec<String>, name: &str) -> (r: Option<usize>)
    ensures
        position_option(r) == first_entry(texts_model(desktops@), has_file_name(name@)),
{
    let ghost m = texts_model(desktops@);
    let ghost p = has_file_name(name@);
    let mut i: usize = 0;
    while i < desktops.len()
        invariant
            i <= desktops@.len(),
            m == texts_model(desktops@),
            p == has_file_name(name@),
            forall|j: int| 0 <= j < i ==> !p(#[trigger] m[j]),
        decreases desktops@.len() - i,
    {
        let f = file_name(desktops[i].as_str());
        if text_eq(f.as_str(), name) {
            proof {
                lemma_first_where_is(m, p, i as int);
            }
            return Some(i);
        }
        i += 1;
    }
    proof {
        lemma_first_where_is(m, p, i as int);
    }
    None
}

/// The position of the only flag that is set, given that the flags say of
/// each item of `s` whether it passes `p`.
fn find_only(
    flags: &Vec<bool>,
    Ghost(s): Ghost<Seq<Seq<char>>>,
    Ghost(p): Ghost<spec_fn(Seq<char>) -> bool>,
) -> (r: Option<usize>)
    requires
        flags@.len() == s.len(),
        forall|i: int| 0 <= i < s.len() ==> flags@[i] == p(#[trigger] s[i]),
    ensures
        position_option(r) == only_entry(s, p),
{
    let mut count: usize = 0;
    let mut first: usize = 0;
    let mut i: usize = 0;
    proof {
        reveal(Seq::filter);
        assert(s.take(0).filter(p) =~= Seq::empty());
    }
    while i < flags.len()
        invariant
            i <= flags@.len(),
            flags@.len() == s.len(),
            forall|j: int| 0 <= j < s.len() ==> flags@[j] == p(#[trigger] s[j]),
            count == s.take(i as int).filter(p).len(),
            count <= i,
            count > 0 ==> first < i && p(s[first as int]),
            forall|j: int| 0 <= j < (if count > 0 { first } else { i }) ==> !p(#[trigger] s[j]),
        decreases flags@.len() - i,
    {
        proof {
            lemma_filter_step(s, p, i as int);
        }
        if flags[i] {
            if count == 0 {
                first = i;
            }
            count += 1;
        }
        i += 1;
    }
    proof {
        assert(s.take(i as int) =~= s);
    }
    if count == 1 {
        proof {
            lemma_first_where_is(s, p, first as int);
        }
        Some(first)
    } else {
        None
    }
}

/// The position among `desktops` of the desktop entry for a document with the
/// `id` text `id` and the canonical id `canonical`, in the package `pkg`.
pub fn resolve_entry(id: &Option<String>, canonical: &str, pkg: &str, desktops: &Vec<String>) -> (r:
    Option<usize>)
    ensures
        position_option(r) == resolved_entry(
            text_option(*id),
            canonical@,
            pkg@,
            texts_model(desktops@),
        ),
        r matches Some(i) ==> i < desktops@.len(),
        forall|i: int|
            0 <= i < desktops@.len() && text_option(*id) == Some(
                file_name_of(#[trigger] desktops@[i]@),
            ) ==> r is Some && text_option(*id) == Some(file_name_of(desktops@[r->0 as int]@)),
{
    let ghost m = texts_model(desktops@);
    proof {
        lemma_resolved_in_range(text_option(*id), canonical@, pkg@, m);
        assert forall|i: int|
            0 <= i < desktops@.len() && text_option(*id) == Some(
                file_name_of(#[trigger] desktops@[i]@),
            ) implies resolved_entry(text_option(*id), canonical@, pkg@, m) is Some && text_option(
            *id,
        ) == Some(
            file_name_of(
                desktops@[resolved_entry(text_option(*id), canonical@, pkg@, m)->0]@,
            ),
        ) by {
            assert(m[i] == desktops@[i]@);
            lemma_id_decides(text_option(*id)->0, canonical@, pkg@, m, i);
        }
    }
    match id {
        Some(t) => {
            let found = find_named(desktops, t.as_str());
            if found.is_some() {
                return found;
            }
        },
        None => {},
    }
    let stem = join2(canonical, ".desktop");
    let found = find_named(desktops, stem.as_str());
    if found.is_some() {
        return found;
    }
    let stem = join2(pkg, ".desktop");
    let found = find_named(desktops, stem.as_str());
    if found.is_some() {
        return found;
    }
    let wanted = to_lowercase(canonical);
    let mut similar: Vec<bool> = Vec::new();
    let mut vendor: Vec<bool> = Vec::new();
    let mut i: usize = 0;
    while i < desktops.len()
        invariant
            i <= desktops@.len(),
            m == texts_model(desktops@),
            wanted@ == lowercase_of(canonical@),
            similar@.len() == i,
            vendor@.len() == i,
            forall|j: int| 0 <= j < i ==> similar@[j] == holds_id(canonical@)(#[trigger] m[j]),
            forall|j: int| 0 <= j < i ==> vendor@[j] == holds_vendor()(#[trigger] m[j]),
        decreases desktops@.len() - i,
    {
        let f = file_name(desktops[i].as_str());
        let low = to_lowercase(f.as_str());
        similar.push(contains(low.as_str(), wanted.as_str()));
        vendor.push(contains(f.as_str(), "org") || contains(f.as_str(), "com"));
        i += 1;
    }
    let found = find_only(&similar, Ghost(m), Ghost(holds_id(canonical@)));
    if found.is_some() {
        return found;
    }
    find_only(&vendor, Ghost(m), Ghost(holds_vendor()))
}

/// The position of the desktop entry that a document describes.
pub fn entry_for(meta: &MetaFile, desktops: &Vec<String>, pkg: &str) -> (r: Option<usize>)
    ensures
        position_option(r) == entry_of(meta@, texts_model(desktops@), pkg@),
        r matches Some(i) ==> i < desktops@.len(),
{
    match &meta.text {
        Some(text) => match read_document(text.as_str()) {
            Ok(doc) => {
                if is_desktop_linked(&doc) {
                    let id = document_id(&doc);
                    let canonical = canonical_id(meta.path.as_str());
                    resolve_entry(&id, canonical.as_str(), pkg, desktops)
                } else {
                    None
                }
            },
            Err(_) => None,
        },
        None => None,
    }
}

/// Pairs the metadata documents of a package with its desktop entries.
///
/// `desktops` holds the paths of the desktop entries, `pkg` is the name of
/// the package and `settings` are its settings.
pub fn genmeta(
    metas: &Vec<MetaFile>,
    desktops: &Vec<String>,
    pkg: &str,
    settings: &PkgData,
) -> (r: MatchResult)
    ensures
        r@ == matched(metas_model(metas@), texts_model(desktops@), pkg@, settings@),
        metas@.len() == 1 && desktops@.len() == 1 ==> r@.unmatched.len() == 0 && r@.pairings == seq![
            PairingModel { meta: metas@[0].path@, desktop: desktops@[0]@, settings: settings@ },
        ],
        r@.pairings.len() + r@.unmatched.len() == metas@.len(),
{
    let ghost mm = metas_model(metas@);
    let ghost dm = texts_model(desktops@);
    proof {
        lemma_every_document_counted(mm, dm, pkg@, settings@);
    }
    if metas.len() == 1 && desktops.len() == 1 {
        let mut pairings: Vec<Pairing> = Vec::new();
        pairings.push(
            Pairing {
                meta: metas[0].path.clone(),
                desktop: desktops[0].clone(),
                settings: settings.duplicate(),
            },
        );
        let r = MatchResult { pairings, unmatched: Vec::new() };
        proof {
            assert(r@.pairings =~= matched(mm, dm, pkg@, settings@).pairings);
            assert(r@.unmatched =~= matched(mm, dm, pkg@, settings@).unmatched);
        }
        return r;
    }
    let mut pairs: Vec<(usize, usize)> = Vec::new();
    let mut unmatched: Vec<String> = Vec::new();
    let mut k: usize = 0;
    proof {
        assert(texts_model(unmatched@) =~= unmatched_upto(mm, dm, pkg@, 0));
    }
    while k < metas.len()
        invariant
            k <= metas@.len(),
            mm == metas_model(metas@),
            dm == texts_model(desktops@),
            pairs@.len() == pairs_upto(mm, dm, pkg@, k as nat).len(),
            forall|t: int|
                0 <= t < pairs@.len() ==> (#[trigger] pairs@[t]).0 < metas@.len() && pairs@[t].1
                    < desktops@.len() && (pairs@[t].0 as int, pairs@[t].1 as int) == pairs_upto(
                    mm,
                    dm,
                    pkg@,
                    k as nat,
                )[t],
            texts_model(unmatched@) == unmatched_upto(mm, dm, pkg@, k as nat),
        decreases metas@.len() - k,
    {
        match entry_for(&metas[k], desktops, pkg) {
            Some(d) => {
                pairs.push((k, d));
            },
            None => {
                let path = metas[k].path.clone();
                proof {
                    assert(texts_model(unmatched@.push(path)) =~= texts_model(unmatched@).push(
                        path@,
                    ));
                }
                unmatched.push(path);
            },
        }
        k += 1;
    }
    let ghost found = pairs_upto(mm, dm, pkg@, mm.len());
    let mut pairings: Vec<Pairing> = Vec::new();
    let count = pairs.len();
    let mut t: usize = 0;
    while t < count
        invariant
            t <= count,
            count == pairs@.len(),
            pairs@.len() == found.len(),
            mm == metas_model(metas@),
            dm == texts_model(desktops@),
            forall|u: int|
                0 <= u < pairs@.len() ==> (#[trigger] pairs@[u]).0 < metas@.len() && pairs@[u].1
                    < desktops@.len() && (pairs@[u].0 as int, pairs@[u].1 as int) == found[u],
            pairings@.len() == t,
            forall|u: int|
                0 <= u < t ==> (#[trigger] pairings@[u])@ == (PairingModel {
                    meta: mm[found[u].0].path,
                    desktop: dm[found[u].1],
                    settings: settings_for(found.len(), settings@),
                }),
        decreases count - t,
    {
        let (m, d) = pairs[t];
        let given = if count == 1 {
            settings.duplicate()
        } else {
            PkgData::default()
        };
        pairings.push(
            Pairing { meta: metas[m].path.clone(), desktop: desktops[d].clone(), settings: given },
        );
        t += 1;
    }
    let r = MatchResult { pairings, unmatched };
    proof {
        assert(r@.pairings =~= matched(mm, dm, pkg@, settings@).pairings);
    }
    r
}

} // verus!
