use nixos_appstream_generator::create::{
    createmeta, join_licenses, license_text, License, PackageFacts,
};
use nixos_appstream_generator::desktop::{desktop_name, entry_value};

fn facts(homepage: &str, license: &str) -> PackageFacts {
    PackageFacts {
        pname: "foo-bin".to_string(),
        summary: "A foo for every bar".to_string(),
        homepage: homepage.to_string(),
        license: license.to_string(),
    }
}

#[test]
fn a_document_with_everything_known() {
    let entry = "[Desktop Entry]\nName= Foo Viewer \nIcon=foo\n";
    let got = createmeta(
        "/nix/store/x/share/applications/org.foo.Viewer.desktop",
        entry,
        "foo",
        &facts("https://foo.example", "MIT and GPL-3.0-only"),
    );
    let want = "<?xml version=\"1.0\" encoding=\"utf-8\"?>\n<component type=\"desktop-application\">\n  <id>org.foo.Viewer.desktop</id>\n  <name>Foo Viewer</name>\n  <summary>A foo for every bar</summary>\n  <url type=\"homepage\">https://foo.example</url>\n  <project_license>MIT and GPL-3.0-only</project_license>\n  <pkgname>foo</pkgname>\n  <launchable type=\"desktop-id\">org.foo.Viewer.desktop</launchable>\n</component>";
    assert_eq!(got, want);
}

#[test]
fn unknown_home_page_and_license_are_left_out() {
    let got = createmeta("foo.desktop", "[Desktop Entry]\nExec=foo\n", "foo", &facts("", ""));
    let want = "<?xml version=\"1.0\" encoding=\"utf-8\"?>\n<component type=\"desktop-application\">\n  <id>foo.desktop</id>\n  <name>foo-bin</name>\n  <summary>A foo for every bar</summary>\n  <pkgname>foo</pkgname>\n  <launchable type=\"desktop-id\">foo.desktop</launchable>\n</component>";
    assert_eq!(got, want);
}

#[test]
fn the_license_alone_is_written_too() {
    let got = createmeta("foo.desktop", "", "foo", &facts("", "MIT"));
    assert!(got.contains("\n  <project_license>MIT</project_license>\n  <pkgname>"));
    assert!(!got.contains("<url"));
}

#[test]
fn licenses_are_joined_with_and() {
    let none: Vec<String> = Vec::new();
    assert_eq!(join_licenses(&none), "");
    assert_eq!(join_licenses(&vec!["MIT".to_string()]), "MIT");
    assert_eq!(
        join_licenses(&vec!["MIT".to_string(), "Apache-2.0".to_string(), "0BSD".to_string()]),
        "MIT and Apache-2.0 and 0BSD"
    );
}

#[test]
fn the_name_is_the_trimmed_value_of_the_name_line() {
    assert_eq!(desktop_name("[Desktop Entry]\nName=Foo\n").as_deref(), Some("Foo"));
    assert_eq!(desktop_name("[Desktop Entry]\nName= \tFoo Bar  \nName=Other\n").as_deref(), Some("Foo Bar"));
    assert_eq!(desktop_name("[Desktop Entry]\nName=a=b\n").as_deref(), Some("a=b"));
    assert_eq!(desktop_name("[Desktop Entry]\r\nName=Foo\u{a0}\r\n").as_deref(), Some("Foo"));
    assert_eq!(desktop_name("x\nName=\n").as_deref(), Some(""));
}

#[test]
fn a_name_needs_a_line_feed_before_it() {
    assert_eq!(desktop_name("Name=Foo\n"), None);
    assert_eq!(desktop_name("[Desktop Entry]\nGenericName=Foo\n"), None);
    assert_eq!(desktop_name(""), None);
    assert_eq!(desktop_name("Name=First\nX=1\nName=Second\n").as_deref(), Some("First"));
}

#[test]
fn entry_values_are_found_by_the_start_of_the_line() {
    assert_eq!(entry_value("A=1\nB=2\n", "B=").as_deref(), Some("2"));
    assert_eq!(entry_value("A=1\nB=2\n", "A=").as_deref(), Some("1"));
    assert_eq!(entry_value("A=1\nB=2", "C="), None);
    assert_eq!(entry_value("A=1\nB=2", "").as_deref(), Some("A=1"));
    assert_eq!(entry_value("A=1=2\nB=2", "A=").as_deref(), Some("1=2"));
    assert_eq!(entry_value("AB=1\nB=2", "B=").as_deref(), Some("2"));
    assert_eq!(entry_value("", "B="), None);
    assert_eq!(entry_value("", "").as_deref(), Some(""));
}

#[test]
fn the_license_is_a_list_or_one_or_unknown() {
    let many = License::Many(vec![
        Some("MIT".to_string()),
        None,
        Some("Apache-2.0".to_string()),
        None,
    ]);
    assert_eq!(license_text(&many), "MIT and Apache-2.0");
    assert_eq!(license_text(&License::Many(vec![None, None])), "");
    assert_eq!(license_text(&License::Many(Vec::new())), "");
    assert_eq!(license_text(&License::One("GPL-3.0-only".to_string())), "GPL-3.0-only");
    assert_eq!(license_text(&License::Unknown), "");
}
