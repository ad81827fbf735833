use nixos_appstream_generator::pkglist::{
    is_left_out, is_wanted, list_packages, Licensing, Package, Selection,
};

fn package(name: &str) -> Package {
    Package {
        name: name.to_string(),
        system: "x86_64-linux".to_string(),
        broken: None,
        insecure: None,
        unsupported: None,
        unfree: None,
    }
}

fn selection(licensing: Licensing, everything: bool) -> Selection {
    Selection { licensing, arch: "x86_64-linux".to_string(), everything }
}

#[test]
fn large_sets_are_left_out() {
    assert!(is_left_out("linuxKernel.kernels.linux_5_15"));
    assert!(is_left_out("haskellPackages.lens"));
    assert!(is_left_out("python310Packages.numpy"));
    assert!(is_left_out("vimPlugins.vim-nix"));
    assert!(is_left_out("gnomeExtensions.dash-to-dock"));
    assert!(is_left_out("haskell.compiler.ghc92"));
    assert!(is_left_out("texlive"));
    assert!(is_left_out("texlive.combined.scheme-full"));
    assert!(is_left_out("openjdk17"));
    assert!(is_left_out("zncModules.clientbuffer"));
}

#[test]
fn cuda_variants_and_single_names_are_left_out() {
    assert!(is_left_out("opencvWithCuda"));
    assert!(is_left_out("blenderwithCuda"));
    assert!(is_left_out("openmpiCudaMpi"));
    assert!(is_left_out("WithCuda"));
    assert!(is_left_out("cntk"));
    assert!(is_left_out("gpu-burn"));
    assert!(is_left_out("mathematica-cuda"));
}

#[test]
fn other_names_are_kept() {
    assert!(!is_left_out("firefox"));
    assert!(!is_left_out(""));
    assert!(!is_left_out("haskell"));
    assert!(!is_left_out("mylinuxKernel"));
    assert!(!is_left_out("cntk2"));
    assert!(!is_left_out("xcntk"));
    assert!(!is_left_out("WithCudaX"));
    assert!(!is_left_out("vimplugins.x"));
    assert!(!is_left_out("gpu-bur"));
}

#[test]
fn flags_decide_whether_a_package_is_wanted() {
    let any = selection(Licensing::Any, false);
    assert!(is_wanted(&package("firefox"), &any));
    let mut p = package("firefox");
    p.broken = Some(true);
    assert!(!is_wanted(&p, &any));
    let mut p = package("firefox");
    p.insecure = Some(true);
    assert!(!is_wanted(&p, &any));
    let mut p = package("firefox");
    p.unsupported = Some(true);
    assert!(!is_wanted(&p, &any));
    let mut p = package("firefox");
    p.broken = Some(false);
    p.insecure = Some(false);
    p.unsupported = Some(false);
    p.unfree = Some(false);
    assert!(is_wanted(&p, &any));
    let mut p = package("firefox");
    p.system = "aarch64-linux".to_string();
    assert!(!is_wanted(&p, &any));
}

#[test]
fn the_license_is_asked_for_only_where_it_matters() {
    let mut unfree = package("steam");
    unfree.unfree = Some(true);
    let mut free = package("firefox");
    free.unfree = Some(false);
    let unknown = package("hello");
    assert!(is_wanted(&unfree, &selection(Licensing::Any, false)));
    assert!(is_wanted(&unfree, &selection(Licensing::Unfree, false)));
    assert!(!is_wanted(&unfree, &selection(Licensing::Free, false)));
    assert!(is_wanted(&free, &selection(Licensing::Free, false)));
    assert!(!is_wanted(&free, &selection(Licensing::Unfree, false)));
    assert!(is_wanted(&unknown, &selection(Licensing::Free, false)));
    assert!(!is_wanted(&unknown, &selection(Licensing::Unfree, false)));
}

#[test]
fn everything_takes_the_large_sets_too() {
    let p = package("haskellPackages.lens");
    assert!(!is_wanted(&p, &selection(Licensing::Any, false)));
    assert!(is_wanted(&p, &selection(Licensing::Any, true)));
}

#[test]
fn the_list_is_sorted_and_holds_each_name_once() {
    let mut broken = package("broken-one");
    broken.broken = Some(true);
    let packages = vec![
        package("zsh"),
        package("firefox"),
        package("vimPlugins.x"),
        broken,
        package("Xorg"),
        package("firefox"),
        package("abiword"),
        package("firefox-esr"),
    ];
    let got = list_packages(&packages, &selection(Licensing::Any, false));
    assert_eq!(got, vec!["Xorg", "abiword", "firefox", "firefox-esr", "zsh"]);
    let mut sorted = got.clone();
    sorted.sort();
    assert_eq!(got, sorted);
    let all = list_packages(&packages, &selection(Licensing::Any, true));
    assert_eq!(all, vec!["Xorg", "abiword", "firefox", "firefox-esr", "vimPlugins.x", "zsh"]);
    let none: Vec<Package> = Vec::new();
    assert!(list_packages(&none, &selection(Licensing::Any, true)).is_empty());
}
