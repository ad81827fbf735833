//! A first metadata document for a package that ships none, made from its
//! desktop entry and from what the package set says of it.

use crate::desktop::{desktop_name, name_of};
use crate::names::{file_name, file_name_of};
use crate::text::{text_option, texts_model};
use vstd::prelude::*;
use vstd::string::StringExecFns;

verus! {

/// What the package set says of a package.
#[derive(Debug)]
pub struct PackageFacts {
    /// The name of the package's program, used where the desktop entry gives
    /// no name.
    pub pname: String,
    /// One line about the package.
    pub summary: String,
    /// The home page; empty where none is known.
    pub homepage: String,
    /// The license; empty where none is known.
    pub license: String,
}

/// The view of `PackageFacts`.
pub struct PackageFactsModel {
    pub pname: Seq<char>,
    pub summary: Seq<char>,
    pub homepage: Seq<char>,
    pub license: Seq<char>,
}

impl View for PackageFacts {
    type V = PackageFactsModel;

    open spec fn view(&self) -> PackageFactsModel {
        PackageFactsModel {
            pname: self.pname@,
            summary: self.summary@,
            homepage: self.homepage@,
            license: self.license@,
        }
    }
}

/// What the package set says of the license of a package.
#[derive(Debug)]
pub enum License {
    /// A list of licenses, each with its identifier where it has one.
    Many(Vec<Option<String>>),
    /// One license with this identifier.
    One(String),
    /// Nothing that can be named.
    Unknown,
}

/// The view of a `License`.
pub enum LicenseModel {
    Many(Seq<Option<Seq<char>>>),
    One(Seq<char>),
    Unknown,
}

/// The views of a sequence of optional strings.
pub open spec fn options_model(s: Seq<Option<String>>) -> Seq<Option<Seq<char>>> {
    s.map_values(|o: Option<String>| text_option(o))
}

impl View for License {
    type V = LicenseModel;

    open spec fn view(&self) -> LicenseModel {
        match self {
            License::Many(ids) => LicenseModel::Many(options_model(ids@)),
            License::One(id) => LicenseModel::One(id@),
            License::Unknown => LicenseModel::Unknown,
        }
    }
}

/// The identifiers that are there, in their order.
pub open spec fn known(ids: Seq<Option<Seq<char>>>) -> Seq<Seq<char>>
    decreases ids.len(),
{
    if ids.len() == 0 {
        Seq::empty()
    } else {
        match ids.last() {
            Some(id) => known(ids.drop_last()).push(id),
            None => known(ids.drop_last()),
        }
    }
}

/// The license as it is written: the identifiers of a list with ` and `
/// between them, entries without identifier left out; the identifier of a
/// single license; nothing where nothing is known.
pub open spec fn license_text_of(license: LicenseModel) -> Seq<char> {
    match license {
        LicenseModel::Many(ids) => joined_licenses(known(ids)),
        LicenseModel::One(id) => id,
        LicenseModel::Unknown => Seq::empty(),
    }
}

/// The license identifiers, with ` and ` between them.
pub open spec fn joined_licenses(ids: Seq<Seq<char>>) -> Seq<char>
    decreases ids.len(),
{
    if ids.len() == 0 {
        Seq::empty()
    } else if ids.len() == 1 {
        ids[0]
    } else {
        joined_licenses(ids.drop_last()) + " and "@ + ids.last()
    }
}

/// One line of the document: a line feed, two spaces, and `value` between
/// `open` and `close`.
pub open spec fn entry_line(open: Seq<char>, value: Seq<char>, close: Seq<char>) -> Seq<char> {
    "\n  "@ + open + value + close
}

/// `line`, or nothing where `value` is empty.
pub open spec fn unless_empty(value: Seq<char>, line: Seq<char>) -> Seq<char> {
    if value.len() == 0 {
        Seq::empty()
    } else {
        line
    }
}

/// The name of the application: the one that the desktop entry gives, else
/// the name of the program.
pub open spec fn shown_name(desktopdata: Seq<char>, facts: PackageFactsModel) -> Seq<char> {
    match name_of(desktopdata) {
        Some(n) => n,
        None => facts.pname,
    }
}

/// The document for the package `pkg` with the desktop entry at the path
/// `desktop`, whose text is `desktopdata`: a `desktop-application` with id,
/// name, summary, home page and license where they are known, package name
/// and launcher.
pub open spec fn created_document(
    desktop: Seq<char>,
    desktopdata: Seq<char>,
    pkg: Seq<char>,
    facts: PackageFactsModel,
) -> Seq<char> {
    "<?xml version=\"1.0\" encoding=\"utf-8\"?>\n<component type=\"desktop-application\">"@
        + entry_line("<id>"@, file_name_of(desktop), "</id>"@) + entry_line(
        "<name>"@,
        shown_name(desktopdata, facts),
        "</name>"@,
    ) + entry_line("<summary>"@, facts.summary, "</summary>"@) + unless_empty(
        facts.homepage,
        entry_line("<url type=\"homepage\">"@, facts.homepage, "</url>"@),
    ) + unless_empty(
        facts.license,
        entry_line("<project_license>"@, facts.license, "</project_license>"@),
    ) + entry_line("<pkgname>"@, pkg, "</pkgname>"@) + entry_line(
        "<launchable type=\"desktop-id\">"@,
        file_name_of(desktop),
        "</launchable>"@,
    ) + "\n</component>"@
}

/// The license identifiers, with ` and ` between them.
pub fn join_licenses(ids: &Vec<String>) -> (r: String)
    ensures
        r@ == joined_licenses(texts_model(ids@)),
{
    let ghost m = texts_model(ids@);
    let mut r = String::new();
    let mut i: usize = 0;
    proof {
        assert(m.take(0) =~= Seq::empty());
    }
    while i < ids.len()
        invariant
            i <= ids@.len(),
            m == texts_model(ids@),
            r@ == joined_licenses(m.take(i as int)),
        decreases ids@.len() - i,
    {
        proof {
            assert(m.take(i + 1).drop_last() =~= m.take(i as int));
            assert(m.take(i + 1).last() == ids@[i as int]@);
            if i == 0 {
                assert(m.take(1)[0] == ids@[0]@);
            }
        }
        if i > 0 {
            r.append(" and ");
        }
        r.append(ids[i].as_str());
        i += 1;
    }
    proof {
        assert(m.take(i as int) =~= m);
    }
    r
}

/// The license as it is written.
pub fn license_text(license: &License) -> (r: String)
    ensures
        r@ == license_text_of(license@),
{
    match license {
        License::Many(ids) => {
            let ghost m = options_model(ids@);
            let mut found: Vec<String> = Vec::new();
            let mut i: usize = 0;
            proof {
                assert(m.take(0) =~= Seq::empty());
                assert(texts_model(found@) =~= known(m.take(0)));
            }
            while i < ids.len()
                invariant
                    i <= ids@.len(),
                    m == options_model(ids@),
                    texts_model(found@) == known(m.take(i as int)),
                decreases ids@.len() - i,
            {
                proof {
                    assert(m.take(i + 1).drop_last() =~= m.take(i as int));
                    assert(m.take(i + 1).last() == text_option(ids@[i as int]));
                }
                match &ids[i] {
                    Some(id) => {
                        let copy = id.clone();
                        proof {
                            assert(texts_model(found@.push(copy)) =~= texts_model(found@).push(
                                copy@,
                            ));
                        }
                        found.push(copy);
                    },
                    None => {},
                }
                i += 1;
            }
            proof {
                assert(m.take(i as int) =~= m);
            }
            join_licenses(&found)
        },
        License::One(id) => id.clone(),
        License::Unknown => String::new(),
    }
}

/// Adds one line of the document to `out`.
fn add_line(out: &mut String, open: &str, value: &str, close: &str)
    ensures
        final(out)@ == old(out)@ + entry_line(open@, value@, close@),
{
    out.append("\n  ");
    out.append(open);
    out.append(value);
    out.append(close);
    proof {
        assert(out@ =~= old(out)@ + entry_line(open@, value@, close@));
    }
}

/// The document for the package `pkg` with the desktop entry at the path
/// `desktop`, whose text is `desktopdata`.
pub fn createmeta(desktop: &str, desktopdata: &str, pkg: &str, facts: &PackageFacts) -> (r: String)
    ensures
        r@ == created_document(desktop@, desktopdata@, pkg@, facts@),
{
    let entry = file_name(desktop);
    let name = match desktop_name(desktopdata) {
        Some(n) => n,
        None => facts.pname.clone(),
    };
    let mut r =
        "<?xml version=\"1.0\" encoding=\"utf-8\"?>\n<component type=\"desktop-application\">".to_owned();
    add_line(&mut r, "<id>", entry.as_str(), "</id>");
    add_line(&mut r, "<name>", name.as_str(), "</name>");
    add_line(&mut r, "<summary>", facts.summary.as_str(), "</summary>");
    if !facts.homepage.as_str().is_empty() {
        add_line(&mut r, "<url type=\"homepage\">", facts.homepage.as_str(), "</url>");
    } else {
        assert(r@ + Seq::<char>::empty() =~= r@);
    }
    if !facts.license.as_str().is_empty() {
        add_line(&mut r, "<project_license>", facts.license.as_str(), "</project_license>");
    } else {
        assert(r@ + Seq::<char>::empty() =~= r@);
    }
    add_line(&mut r, "<pkgname>", pkg, "</pkgname>");
    add_line(&mut r, "<launchable type=\"desktop-id\">", entry.as_str(), "</launchable>");
    r.append("\n</component>");
    r
}

} // verus!
