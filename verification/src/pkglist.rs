//! The list of the packages for which metadata is generated: which packages
//! of a package set are taken, and in which order they are listed.

use crate::text::{
    ascending, chars_of, ends_with, insert_key, insert_sorted, lemma_insert_key, matches_at, occurs_at,
    text_eq, texts_model,
};
use vstd::prelude::*;

verus! {

/// What is known of one package of the package set.
#[derive(Debug)]
pub struct Package {
    /// The attribute name of the package.
    pub name: String,
    /// The system that the package is built for.
    pub system: String,
    pub broken: Option<bool>,
    pub insecure: Option<bool>,
    pub unsupported: Option<bool>,
    pub unfree: Option<bool>,
}

/// Which packages are taken with regard to their license.
#[derive(Debug, Clone, Copy, PartialEq, Eq, Structural)]
pub enum Licensing {
    /// Free and unfree packages.
    Any,
    /// Only packages that are not marked as unfree.
    Free,
    /// Only packages that are marked as unfree.
    Unfree,
}

/// Which packages are taken.
#[derive(Debug)]
pub struct Selection {
    pub licensing: Licensing,
    /// The system that the packages must be built for.
    pub arch: String,
    /// Whether the large package sets, which are left out otherwise, are
    /// taken too.
    pub everything: bool,
}

/// The view of a `Package`.
pub struct PackageModel {
    pub name: Seq<char>,
    pub system: Seq<char>,
    pub broken: Option<bool>,
    pub insecure: Option<bool>,
    pub unsupported: Option<bool>,
    pub unfree: Option<bool>,
}

/// The view of a `Selection`.
pub struct SelectionModel {
    pub licensing: Licensing,
    pub arch: Seq<char>,
    pub everything: bool,
}

impl View for Package {
    type V = PackageModel;

    open spec fn view(&self) -> PackageModel {
        PackageModel {
            name: self.name@,
            system: self.system@,
            broken: self.broken,
            insecure: self.insecure,
            unsupported: self.unsupported,
            unfree: self.unfree,
        }
    }
}

impl View for Selection {
    type V = SelectionModel;

    open spec fn view(&self) -> SelectionModel {
        SelectionModel { licensing: self.licensing, arch: self.arch@, everything: self.everything }
    }
}

/// The views of a sequence of packages.
pub open spec fn packages_model(s: Seq<Package>) -> Seq<PackageModel> {
    s.map_values(|p: Package| p@)
}

/// The beginnings of names that are left out: kernels, language package sets,
/// plugins, extensions and other large sets.
pub open spec fn excluded_starts() -> Seq<Seq<char>> {
    seq![
        "linuxKernel"@,
        "androidStudioPackages"@,
        "apacheHttpdPackages"@,
        "arcanPackages"@,
        "beetsPackages"@,
        "chickenPackages"@,
        "coqPackages"@,
        "cudaPackages"@,
        "dhallPackages"@,
        "dotnetCorePackages"@,
        "dotnetPackages"@,
        "dwarf-fortress-packages"@,
        "elmPackages"@,
        "emacs28Packages"@,
        "emscriptenPackages"@,
        "fdbPackages"@,
        "gnuradio3_8Packages"@,
        "haskellPackages"@,
        "haxePackages"@,
        "idrisPackages"@,
        "javaPackages"@,
        "kodiPackages"@,
        "lispPackages"@,
        "llvmPackages"@,
        "lua51Packages"@,
        "lua52Packages"@,
        "lua53Packages"@,
        "luajitPackages"@,
        "nimPackages"@,
        "nodePackages"@,
        "ocamlPackages"@,
        "octavePackages"@,
        "openraPackages"@,
        "perl532Packages"@,
        "perl534Packages"@,
        "php80Packages"@,
        "php81Packages"@,
        "postgresql11Packages"@,
        "postgresql12Packages"@,
        "postgresql13Packages"@,
        "postgresql14Packages"@,
        "python310Packages"@,
        "python39Packages"@,
        "quicklispPackagesClisp"@,
        "rPackages"@,
        "rubyPackages"@,
        "ue4demos"@,
        "wine64Packages"@,
        "winePackages"@,
        "wineWowPackages"@,
        "elasticsearchPlugins"@,
        "fishPlugins"@,
        "graylogPlugins"@,
        "gsignondPlugins"@,
        "kakounePlugins"@,
        "tmuxPlugins"@,
        "vdrPlugins"@,
        "vimPlugins"@,
        "gnomeExtensions"@,
        "passExtensions"@,
        "php80Extensions"@,
        "php81Extensions"@,
        "vscode-extensions"@,
        "adoptopenjdk"@,
        "alephone"@,
        "aspellDicts"@,
        "bitcoind"@,
        "CuboCore"@,
        "dictdDBs"@,
        "ethminer"@,
        "gawkextlib"@,
        "haskell."@,
        "home-assistant-component-tests"@,
        "hunspellDicts"@,
        "libretro."@,
        "lohit-fonts"@,
        "minecraftServers"@,
        "mpvScripts"@,
        "openjdk"@,
        "optifinePackages"@,
        "pythonDocs"@,
        "terraform-providers"@,
        "texlive"@,
        "tree-sitter-grammars"@,
        "weechatScripts"@,
        "zncModules"@,
    ]
}

/// The ends of names that are left out.
pub open spec fn excluded_ends() -> Seq<Seq<char>> {
    seq![
        "WithCuda"@,
        "withCuda"@,
        "CudaMpi"@,
    ]
}

/// The names that are left out.
pub open spec fn excluded_names() -> Seq<Seq<char>> {
    seq![
        "cntk"@,
        "gpu-burn"@,
        "mathematica-cuda"@,
    ]
}

/// `s` begins with `p`.
pub open spec fn begins_with(s: Seq<char>, p: Seq<char>) -> bool {
    occurs_at(s, p, 0)
}

/// `s` begins with one of `starts`.
pub open spec fn begins_with_any(s: Seq<char>, starts: Seq<Seq<char>>) -> bool {
    exists|i: int| 0 <= i < starts.len() && begins_with(s, #[trigger] starts[i])
}

/// `s` ends with one of `ends`.
pub open spec fn ends_with_any(s: Seq<char>, ends: Seq<Seq<char>>) -> bool {
    exists|i: int| 0 <= i < ends.len() && ends_with(s, #[trigger] ends[i])
}

/// The package of this name belongs to what is left out by default.
pub open spec fn left_out(name: Seq<char>) -> bool {
    begins_with_any(name, excluded_starts()) || ends_with_any(name, excluded_ends())
        || excluded_names().contains(name)
}

/// The flag is set.
pub open spec fn is_set(flag: Option<bool>) -> bool {
    flag == Some(true)
}

/// The package is taken: its license fits, it is built for the wanted system,
/// it is not broken, insecure or unsupported, and it is not left out.
pub open spec fn wanted(p: PackageModel, selection: SelectionModel) -> bool {
    &&& match selection.licensing {
        Licensing::Any => true,
        Licensing::Free => !is_set(p.unfree),
        Licensing::Unfree => is_set(p.unfree),
    }
    &&& p.system == selection.arch
    &&& !is_set(p.broken)
    &&& !is_set(p.insecure)
    &&& !is_set(p.unsupported)
    &&& (selection.everything || !left_out(p.name))
}

/// The names of those of the first `k` packages that are taken, each once,
/// in ascending order.
pub open spec fn listed_upto(packages: Seq<PackageModel>, selection: SelectionModel, k: nat) -> Seq<
    Seq<char>,
>
    decreases k,
{
    if k == 0 || k > packages.len() {
        Seq::empty()
    } else {
        let before = listed_upto(packages, selection, (k - 1) as nat);
        if wanted(packages[k - 1], selection) {
            insert_key(before, packages[k - 1].name)
        } else {
            before
        }
    }
}

/// The names of the packages that are taken, each once, in ascending order.
pub open spec fn listed(packages: Seq<PackageModel>, selection: SelectionModel) -> Seq<Seq<char>> {
    listed_upto(packages, selection, packages.len())
}

/// What holds of the list of the first `k` packages.
proof fn lemma_listed_upto(packages: Seq<PackageModel>, selection: SelectionModel, k: nat)
    requires
        k <= packages.len(),
    ensures
        ascending(listed_upto(packages, selection, k)),
        forall|i: int|
            0 <= i < k && wanted(#[trigger] packages[i], selection) ==> listed_upto(
                packages,
                selection,
                k,
            ).contains(packages[i].name),
        forall|name: Seq<char>| #[trigger]
            listed_upto(packages, selection, k).contains(name) ==> exists|i: int|
                0 <= i < k && wanted(#[trigger] packages[i], selection) && packages[i].name == name,
    decreases k,
{
    if k > 0 {
        let before = listed_upto(packages, selection, (k - 1) as nat);
        lemma_listed_upto(packages, selection, (k - 1) as nat);
        let p = packages[k - 1];
        if wanted(p, selection) {
            lemma_insert_key(before, p.name);
        }
        assert forall|name: Seq<char>| #[trigger]
            listed_upto(packages, selection, k).contains(name) implies exists|i: int|
            0 <= i < k && wanted(#[trigger] packages[i], selection) && packages[i].name == name by {
            if wanted(p, selection) && name == p.name {
                assert(wanted(packages[k - 1], selection));
            } else {
                assert(before.contains(name));
                let i = choose|i: int|
                    0 <= i < k - 1 && wanted(#[trigger] packages[i], selection) && packages[i].name
                        == name;
                assert(wanted(packages[i], selection));
            }
        }
    }
}

/// The list is in strictly ascending order, so that no name stands twice; it
/// holds the name of every package that is taken, and no other name.
pub proof fn lemma_listed(packages: Seq<PackageModel>, selection: SelectionModel)
    ensures
        ascending(listed(packages, selection)),
        forall|i: int|
            0 <= i < packages.len() && wanted(#[trigger] packages[i], selection) ==> listed(
                packages,
                selection,
            ).contains(packages[i].name),
        forall|name: Seq<char>| #[trigger]
            listed(packages, selection).contains(name) ==> exists|i: int|
                0 <= i < packages.len() && wanted(#[trigger] packages[i], selection)
                    && packages[i].name == name,
{
    lemma_listed_upto(packages, selection, packages.len());
}

/// The beginnings of names that are left out.
fn excluded_start_list() -> (r: Vec<&'static str>)
    ensures
        r@.len() == excluded_starts().len(),
        forall|i: int| 0 <= i < r@.len() ==> (#[trigger] r@[i])@ == excluded_starts()[i],
{
    vec![
        "linuxKernel",
        "androidStudioPackages",
        "apacheHttpdPackages",
        "arcanPackages",
        "beetsPackages",
        "chickenPackages",
        "coqPackages",
        "cudaPackages",
        "dhallPackages",
        "dotnetCorePackages",
        "dotnetPackages",
        "dwarf-fortress-packages",
        "elmPackages",
        "emacs28Packages",
        "emscriptenPackages",
        "fdbPackages",
        "gnuradio3_8Packages",
        "haskellPackages",
        "haxePackages",
        "idrisPackages",
        "javaPackages",
        "kodiPackages",
        "lispPackages",
        "llvmPackages",
        "lua51Packages",
        "lua52Packages",
        "lua53Packages",
        "luajitPackages",
        "nimPackages",
        "nodePackages",
        "ocamlPackages",
        "octavePackages",
        "openraPackages",
        "perl532Packages",
        "perl534Packages",
        "php80Packages",
        "php81Packages",
        "postgresql11Packages",
        "postgresql12Packages",
        "postgresql13Packages",
        "postgresql14Packages",
        "python310Packages",
        "python39Packages",
        "quicklispPackagesClisp",
        "rPackages",
        "rubyPackages",
        "ue4demos",
        "wine64Packages",
        "winePackages",
        "wineWowPackages",
        "elasticsearchPlugins",
        "fishPlugins",
        "graylogPlugins",
        "gsignondPlugins",
        "kakounePlugins",
        "tmuxPlugins",
        "vdrPlugins",
        "vimPlugins",
        "gnomeExtensions",
        "passExtensions",
        "php80Extensions",
        "php81Extensions",
        "vscode-extensions",
        "adoptopenjdk",
        "alephone",
        "aspellDicts",
        "bitcoind",
        "CuboCore",
        "dictdDBs",
        "ethminer",
        "gawkextlib",
        "haskell.",
        "home-assistant-component-tests",
        "hunspellDicts",
        "libretro.",
        "lohit-fonts",
        "minecraftServers",
        "mpvScripts",
        "openjdk",
        "optifinePackages",
        "pythonDocs",
        "terraform-providers",
        "texlive",
        "tree-sitter-grammars",
        "weechatScripts",
        "zncModules",
    ]
}

/// The ends of names that are left out.
fn excluded_end_list() -> (r: Vec<&'static str>)
    ensures
        r@.len() == excluded_ends().len(),
        forall|i: int| 0 <= i < r@.len() ==> (#[trigger] r@[i])@ == excluded_ends()[i],
{
    vec![
        "WithCuda",
        "withCuda",
        "CudaMpi",
    ]
}

/// The names that are left out.
fn excluded_name_list() -> (r: Vec<&'static str>)
    ensures
        r@.len() == excluded_names().len(),
        forall|i: int| 0 <= i < r@.len() ==> (#[trigger] r@[i])@ == excluded_names()[i],
{
    vec![
        "cntk",
        "gpu-burn",
        "mathematica-cuda",
    ]
}

/// Whether `name` belongs to what is left out by default.
pub fn is_left_out(name: &str) -> (r: bool)
    ensures
        r == left_out(name@),
{
    let cs = chars_of(name);
    let n = cs.len();
    let starts = excluded_start_list();
    let mut i: usize = 0;
    while i < starts.len()
        invariant
            cs@ == name@,
            n == cs@.len(),
            i <= starts@.len(),
            starts@.len() == excluded_starts().len(),
            forall|j: int| 0 <= j < starts@.len() ==> (#[trigger] starts@[j])@ == excluded_starts()[j],
            forall|j: int| 0 <= j < i ==> !begins_with(name@, #[trigger] excluded_starts()[j]),
        decreases starts@.len() - i,
    {
        let p = chars_of(starts[i]);
        if p.len() <= n && matches_at(&cs, &p, 0) {
            assert(begins_with(name@, excluded_starts()[i as int]));
            return true;
        }
        i += 1;
    }
    let ends = excluded_end_list();
    let mut i: usize = 0;
    while i < ends.len()
        invariant
            cs@ == name@,
            n == cs@.len(),
            i <= ends@.len(),
            ends@.len() == excluded_ends().len(),
            forall|j: int| 0 <= j < ends@.len() ==> (#[trigger] ends@[j])@ == excluded_ends()[j],
            forall|j: int| 0 <= j < i ==> !ends_with(name@, #[trigger] excluded_ends()[j]),
            !begins_with_any(name@, excluded_starts()),
        decreases ends@.len() - i,
    {
        let p = chars_of(ends[i]);
        if p.len() <= n && matches_at(&cs, &p, n - p.len()) {
            assert(ends_with(name@, excluded_ends()[i as int]));
            return true;
        }
        i += 1;
    }
    let names = excluded_name_list();
    let mut i: usize = 0;
    while i < names.len()
        invariant
            i <= names@.len(),
            names@.len() == excluded_names().len(),
            forall|j: int| 0 <= j < names@.len() ==> (#[trigger] names@[j])@ == excluded_names()[j],
            forall|j: int| 0 <= j < i ==> name@ != #[trigger] excluded_names()[j],
            !begins_with_any(name@, excluded_starts()),
            !ends_with_any(name@, excluded_ends()),
        decreases names@.len() - i,
    {
        if text_eq(name, names[i]) {
            assert(excluded_names()[i as int] == name@);
            return true;
        }
        i += 1;
    }
    false
}

/// Whether a flag is set.
fn flag_is_set(flag: Option<bool>) -> (r: bool)
    ensures
        r == is_set(flag),
{
    match flag {
        Some(b) => b,
        None => false,
    }
}

/// Whether a package is taken.
pub fn is_wanted(p: &Package, selection: &Selection) -> (r: bool)
    ensures
        r == wanted(p@, selection@),
{
    let fits = match selection.licensing {
        Licensing::Any => true,
        Licensing::Free => !flag_is_set(p.unfree),
        Licensing::Unfree => flag_is_set(p.unfree),
    };
    fits && text_eq(p.system.as_str(), selection.arch.as_str()) && !flag_is_set(p.broken)
        && !flag_is_set(p.insecure) && !flag_is_set(p.unsupported) && (selection.everything
        || !is_left_out(p.name.as_str()))
}

/// The names of the packages that are taken, each once, in ascending order.
pub fn list_packages(packages: &Vec<Package>, selection: &Selection) -> (r: Vec<String>)
    ensures
        texts_model(r@) == listed(packages_model(packages@), selection@),
{
    let ghost m = packages_model(packages@);
    let mut r: Vec<String> = Vec::new();
    let mut k: usize = 0;
    proof {
        assert(texts_model(r@) =~= listed_upto(m, selection@, 0));
    }
    while k < packages.len()
        invariant
            k <= packages@.len(),
            m == packages_model(packages@),
            texts_model(r@) == listed_upto(m, selection@, k as nat),
        decreases packages@.len() - k,
    {
        if is_wanted(&packages[k], selection) {
            insert_sorted(&mut r, packages[k].name.clone());
        }
        k += 1;
    }
    r
}

} // verus!
