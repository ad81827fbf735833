use nixos_appstream_generator::find::{
    metadata_source, sanitize, xmlparse, xmlparse_nondesktop, MetaSource, PkgData,
};
use nixos_appstream_generator::icons::{IconAsset, IconMethod};
use nixos_appstream_generator::matcher::{genmeta, MetaFile};
use nixos_appstream_generator::normalize::{
    count_children, fixtranslation, icon_element, launchable_element, normalize_desktop,
    normalize_plain, regroup_description, set_package, Skip,
};
use nixos_appstream_generator::tree::{Node, XmlElement};
use nixos_appstream_generator::xml::{read_document, write_document};

fn tags(e: &XmlElement) -> Vec<String> {
    let mut out = Vec::new();
    for c in &e.children {
        if let Node::Element(x) = c {
            out.push(x.name.clone());
        }
    }
    out
}

fn child<'a>(e: &'a XmlElement, i: usize) -> &'a XmlElement {
    let mut seen = 0;
    for c in &e.children {
        if let Node::Element(x) = c {
            if seen == i {
                return x;
            }
            seen += 1;
        }
    }
    panic!("no such child");
}

fn text_of(e: &XmlElement) -> String {
    let mut out = String::new();
    for c in &e.children {
        if let Node::Text(t) = c {
            out.push_str(t);
        }
    }
    out
}

fn attrs(e: &XmlElement) -> Vec<(String, String)> {
    e.attributes.iter().map(|a| (a.name.clone(), a.value.clone())).collect()
}

fn pair(k: &str, v: &str) -> (String, String) {
    (k.to_string(), v.to_string())
}

fn asset(size: u32, name: &str) -> IconAsset {
    IconAsset {
        size,
        name: name.to_string(),
        method: IconMethod::Copy,
        source: "/somewhere".to_string(),
    }
}

fn no_icons() -> Vec<IconAsset> {
    Vec::new()
}

#[test]
fn a_component_gets_package_launchable_and_regrouped_description() {
    let doc = read_document(
        "<component><id>foo.appdata</id><description><p>Hi</p><p lang=\"de\">Hallo</p></description></component>",
    )
    .unwrap();
    let c = normalize_desktop(doc, "/pkg/share/applications/foo.desktop", "foo", &None, &no_icons())
        .unwrap();
    assert_eq!(c.name, "component");
    assert_eq!(tags(&c), vec!["pkgname", "launchable", "id", "description", "description"]);
    assert_eq!(text_of(child(&c, 0)), "foo");
    assert_eq!(text_of(child(&c, 1)), "foo.desktop");
    assert_eq!(attrs(child(&c, 1)), vec![pair("type", "desktop-id")]);
    assert_eq!(text_of(child(&c, 2)), "foo.appdata");
    let plain = child(&c, 3);
    assert!(attrs(plain).is_empty());
    assert_eq!(tags(plain), vec!["p"]);
    assert_eq!(text_of(child(plain, 0)), "Hi");
    let german = child(&c, 4);
    assert_eq!(attrs(german), vec![pair("lang", "de")]);
    assert_eq!(tags(german), vec!["p"]);
    assert_eq!(text_of(child(german, 0)), "Hallo");
    assert!(attrs(child(german, 0)).is_empty());
}

#[test]
fn an_application_becomes_a_desktop_application_component() {
    let doc = read_document("<application version=\"1\"><id>x.desktop</id></application>").unwrap();
    let c = normalize_desktop(doc, "x.desktop", "x", &None, &no_icons()).unwrap();
    assert_eq!(c.name, "component");
    assert_eq!(attrs(&c), vec![pair("version", "1"), pair("type", "desktop-application")]);
}

#[test]
fn the_type_of_an_application_is_overwritten_in_its_place() {
    let doc = read_document("<application type=\"old\" a=\"b\"/>").unwrap();
    let c = normalize_desktop(doc, "x.desktop", "x", &None, &no_icons()).unwrap();
    assert_eq!(attrs(&c), vec![pair("type", "desktop-application"), pair("a", "b")]);
}

#[test]
fn the_attributes_of_a_component_stay() {
    let doc = read_document("<component type=\"desktop\" a=\"b\"/>").unwrap();
    let c = normalize_desktop(doc, "x.desktop", "x", &None, &no_icons()).unwrap();
    assert_eq!(attrs(&c), vec![pair("type", "desktop"), pair("a", "b")]);
}

#[test]
fn another_root_is_no_component() {
    let doc = read_document("<html><body/></html>").unwrap();
    assert!(matches!(
        normalize_desktop(doc, "x.desktop", "x", &None, &no_icons()),
        Err(Skip::NotComponent)
    ));
    let doc = read_document("<application/>").unwrap();
    assert!(matches!(normalize_plain(doc, "x"), Err(Skip::NotComponent)));
    let doc = read_document("<Component/>").unwrap();
    assert!(matches!(normalize_plain(doc, "x"), Err(Skip::NotComponent)));
}

#[test]
fn old_icons_go_and_new_icons_come_last_resolved_first() {
    let doc = read_document(
        "<component><name>n</name><icon type=\"stock\">old</icon><summary>s</summary><icon>older</icon></component>",
    )
    .unwrap();
    let icons = vec![asset(128, "foo.png"), asset(64, "foo.png")];
    let c = normalize_desktop(doc, "/a/foo.desktop", "pkg", &None, &icons).unwrap();
    assert_eq!(tags(&c), vec!["pkgname", "launchable", "icon", "icon", "name", "summary"]);
    let first = child(&c, 2);
    assert_eq!(attrs(first), vec![pair("type", "cached"), pair("width", "64"), pair("height", "64")]);
    assert_eq!(text_of(first), "foo.png");
    let second = child(&c, 3);
    assert_eq!(
        attrs(second),
        vec![pair("type", "cached"), pair("width", "128"), pair("height", "128")]
    );
    assert_eq!(text_of(second), "foo.png");
}

#[test]
fn of_several_launchables_the_first_is_kept() {
    let doc = read_document(
        "<component><launchable type=\"desktop-id\">a.desktop</launchable><name>n</name><launchable type=\"url\">b</launchable><launchable>c</launchable></component>",
    )
    .unwrap();
    let c = normalize_desktop(doc, "/a/foo.desktop", "pkg", &None, &no_icons()).unwrap();
    assert_eq!(tags(&c), vec!["pkgname", "launchable", "name"]);
    assert_eq!(text_of(child(&c, 1)), "a.desktop");
    assert_eq!(attrs(child(&c, 1)), vec![pair("type", "desktop-id")]);
    assert_eq!(count_children(&c, "launchable"), 1);
}

#[test]
fn a_launchable_that_is_there_is_kept() {
    let doc = read_document(
        "<component><name>n</name><launchable type=\"desktop-id\">own.desktop</launchable></component>",
    )
    .unwrap();
    let c = normalize_desktop(doc, "/a/foo.desktop", "pkg", &None, &no_icons()).unwrap();
    assert_eq!(tags(&c), vec!["pkgname", "name", "launchable"]);
    assert_eq!(text_of(child(&c, 2)), "own.desktop");
}

#[test]
fn an_id_that_is_set_replaces_the_ids_of_the_document() {
    let doc = read_document("<component><name>n</name><id>a</id><id>b</id></component>").unwrap();
    let id = Some("org.example.App".to_string());
    let c = normalize_desktop(doc, "/a/foo.desktop", "pkg", &id, &no_icons()).unwrap();
    assert_eq!(tags(&c), vec!["pkgname", "id", "launchable", "name"]);
    assert_eq!(text_of(child(&c, 1)), "org.example.App");
}

#[test]
fn an_id_that_is_set_is_added_where_the_document_has_none() {
    let doc = read_document("<component><name>n</name></component>").unwrap();
    let id = Some("org.example.App".to_string());
    let c = normalize_desktop(doc, "/a/foo.desktop", "pkg", &id, &no_icons()).unwrap();
    assert_eq!(tags(&c), vec!["pkgname", "id", "launchable", "name"]);
}

#[test]
fn there_is_one_package_name_whatever_the_document_had() {
    let doc = read_document(
        "<component><pkgname>a</pkgname><name>n</name><pkgname>b</pkgname></component>",
    )
    .unwrap();
    let c = normalize_plain(doc, "real").unwrap();
    assert_eq!(tags(&c), vec!["pkgname", "name"]);
    assert_eq!(text_of(child(&c, 0)), "real");
    assert_eq!(count_children(&c, "pkgname"), 1);
}

#[test]
fn a_document_without_entry_gets_the_package_and_nothing_else() {
    let doc = read_document(
        "<component type=\"addon\"><id>x</id><description><p lang=\"de\">b</p><p>a</p></description><icon>i</icon></component>",
    )
    .unwrap();
    let c = normalize_plain(doc, "pkg").unwrap();
    assert_eq!(tags(&c), vec!["pkgname", "id", "description", "description", "icon"]);
    assert_eq!(count_children(&c, "launchable"), 0);
    assert_eq!(attrs(&c), vec![pair("type", "addon")]);
    assert!(attrs(child(&c, 2)).is_empty());
    assert_eq!(attrs(child(&c, 3)), vec![pair("lang", "de")]);
}

#[test]
fn two_descriptions_are_left_alone() {
    let text = "<component><description><p lang=\"de\">b</p></description><description><p>a</p></description></component>";
    let mut c = read_document(text).unwrap();
    regroup_description(&mut c);
    assert_eq!(tags(&c), vec!["description", "description"]);
    assert_eq!(attrs(child(child(&c, 0), 0)), vec![pair("lang", "de")]);
    assert!(attrs(child(&c, 0)).is_empty());
}

#[test]
fn the_groups_take_the_place_of_the_description() {
    let text = "<component>t<a/><description><p lang=\"de\">b</p><p>a</p></description><b/>u</component>";
    let mut c = read_document(text).unwrap();
    regroup_description(&mut c);
    assert_eq!(tags(&c), vec!["a", "description", "description", "b"]);
    assert_eq!(c.children.len(), 6);
    assert!(matches!(&c.children[0], Node::Text(t) if t == "t"));
    assert!(matches!(&c.children[5], Node::Text(t) if t == "u"));
}

#[test]
fn regrouping_the_description_twice_is_regrouping_it_once() {
    let texts = [
        "<component><a/><description><p lang=\"de\">b</p><p>a</p><ul><li>x</li><li lang=\"fr\">y</li></ul></description><b/></component>",
        "<component><description><p>a</p><p>b</p></description></component>",
        "<component><description>text</description></component>",
        "<component><description k=\"v\"><p a=\"b\">x</p>t<ul c=\"d\"><li e=\"f\">y</li></ul></description></component>",
        "<component><name>n</name></component>",
        "<component><description><p>a</p></description><description lang=\"de\"><p>b</p></description></component>",
        "<component><description><p lang=\"de\">b</p></description></component>",
        "<component><description lang=\"fr\"><p>a <b>c</b></p></description></component>",
    ];
    for text in texts {
        let mut once = read_document(text).unwrap();
        regroup_description(&mut once);
        let mut twice = read_document(text).unwrap();
        regroup_description(&mut twice);
        regroup_description(&mut twice);
        assert_eq!(write_document(&twice).unwrap(), write_document(&once).unwrap());
    }
}

#[test]
fn a_description_in_one_language_keeps_the_language_the_second_time() {
    let mut c = read_document("<component><description><p lang=\"de\">b</p></description></component>").unwrap();
    regroup_description(&mut c);
    assert_eq!(attrs(child(&c, 0)), vec![pair("lang", "de")]);
    regroup_description(&mut c);
    assert_eq!(attrs(child(&c, 0)), vec![pair("lang", "de")]);
    assert_eq!(tags(child(&c, 0)), vec!["p"]);
    assert!(attrs(child(child(&c, 0), 0)).is_empty());
}

#[test]
fn an_empty_description_disappears_and_plain_text_stays() {
    let mut c = read_document("<component><a/><description/><b/></component>").unwrap();
    regroup_description(&mut c);
    assert_eq!(tags(&c), vec!["a", "b"]);
    let mut c = read_document("<component><a/><description>plain</description><b/></component>").unwrap();
    regroup_description(&mut c);
    assert_eq!(tags(&c), vec!["a", "description", "b"]);
    assert_eq!(text_of(child(&c, 1)), "plain");
}

#[test]
fn namespaces_and_prefixes_are_written_back() {
    let text = "<component xmlns:its=\"http://www.w3.org/2005/11/its\" xmlns=\"urn:x\"><its:rules version=\"2.0\"/><name>n</name></component>";
    let out = xmlparse_nondesktop("/m/foo.xml", text, "foo").unwrap();
    assert!(out.text.contains("xmlns:its=\"http://www.w3.org/2005/11/its\""));
    assert!(out.text.contains("xmlns=\"urn:x\""));
    assert!(out.text.contains("<its:rules version=\"2.0\" />"));
    assert!(out.text.contains("<pkgname>foo</pkgname>"));
    let doc = read_document(text).unwrap();
    assert_eq!(doc.scope.namespace.as_deref(), Some("urn:x"));
    assert_eq!(doc.scope.prefix, None);
    assert!(doc.scope.declared.is_some());
    let again = read_document(&write_document(&doc).unwrap()).unwrap();
    assert_eq!(write_document(&again).unwrap(), write_document(&doc).unwrap());
}

#[test]
fn any_child_can_be_regrouped_in_its_place() {
    let mut c = read_document("<x><a/><b><i lang=\"z\">1</i><i>2</i></b><c/></x>").unwrap();
    fixtranslation(&mut c, 1);
    assert_eq!(tags(&c), vec!["a", "b", "b", "c"]);
    assert!(attrs(child(&c, 1)).is_empty());
    assert_eq!(attrs(child(&c, 2)), vec![pair("lang", "z")]);
}

#[test]
fn a_child_that_is_no_element_or_is_not_there_is_left_alone() {
    let text = "<x>t<b><i lang=\"z\">1</i></b></x>";
    let mut c = read_document(text).unwrap();
    fixtranslation(&mut c, 0);
    fixtranslation(&mut c, 2);
    fixtranslation(&mut c, 200);
    assert_eq!(write_document(&c).unwrap(), write_document(&read_document(text).unwrap()).unwrap());
    assert_eq!(c.children.len(), 2);
}

#[test]
fn set_package_puts_the_name_first() {
    let mut c = read_document("<component><a/></component>").unwrap();
    set_package(&mut c, "hello");
    assert_eq!(tags(&c), vec!["pkgname", "a"]);
    assert_eq!(text_of(child(&c, 0)), "hello");
}

#[test]
fn icon_and_launchable_elements() {
    let i = icon_element(&asset(1024, "a.png"));
    assert_eq!(i.name, "icon");
    assert_eq!(
        attrs(&i),
        vec![pair("type", "cached"), pair("width", "1024"), pair("height", "1024")]
    );
    assert_eq!(text_of(&i), "a.png");
    let l = launchable_element("x.desktop");
    assert_eq!(l.name, "launchable");
    assert_eq!(attrs(&l), vec![pair("type", "desktop-id")]);
    assert_eq!(text_of(&l), "x.desktop");
}

#[test]
fn the_written_document_has_its_place_and_its_text() {
    let text = "<component><id>foo.appdata</id><description><p>Hi</p><p lang=\"de\">Hallo</p></description></component>";
    let out = xmlparse(
        "/pkg/share/metainfo/foo.appdata.xml",
        text,
        "/pkg/share/applications/foo.desktop",
        "foo",
        &PkgData::default(),
        &no_icons(),
    )
    .unwrap();
    assert_eq!(out.place, "metadata/foo::foo.xml");
    let expected = "<?xml version=\"1.0\" encoding=\"UTF-8\"?>\n<component>\n  <pkgname>foo</pkgname>\n  <launchable type=\"desktop-id\">foo.desktop</launchable>\n  <id>foo.appdata</id>\n  <description>\n    <p>Hi</p>\n  </description>\n  <description lang=\"de\">\n    <p>Hallo</p>\n  </description>\n</component>";
    assert_eq!(out.text, expected);
}

#[test]
fn settings_name_the_id_and_the_file() {
    let settings = PkgData {
        id: Some("org.example.Foo".to_string()),
        icon: None,
        outputicon: None,
        outputmetainfo: Some("org.example.Foo.xml".to_string()),
    };
    let out = xmlparse(
        "/pkg/share/metainfo/foo.appdata.xml",
        "<component><id>foo</id></component>",
        "/pkg/share/applications/foo.desktop",
        "foo",
        &settings,
        &no_icons(),
    )
    .unwrap();
    assert_eq!(out.place, "metadata/foo::org.example.Foo.xml");
    assert!(out.text.contains("<id>org.example.Foo</id>"));
    assert!(!out.text.contains("<id>foo</id>"));
}

#[test]
fn text_that_is_no_document_is_malformed() {
    let r = xmlparse("a.xml", "<component><id>", "a.desktop", "a", &PkgData::default(), &no_icons());
    assert!(matches!(r, Err(Skip::Malformed)));
    let r = xmlparse_nondesktop("a.xml", "", "a");
    assert!(matches!(r, Err(Skip::Malformed)));
    let r = xmlparse_nondesktop("a.xml", "just text", "a");
    assert!(matches!(r, Err(Skip::Malformed)));
}

#[test]
fn text_without_a_root_element_is_malformed() {
    for text in ["<!-- only a comment -->", "<?xml version=\"1.0\"?>", "<?pi x?>", "   ", "<a></b>", "<a x=1/>"] {
        let r = xmlparse_nondesktop("a.xml", text, "a");
        assert!(matches!(r, Err(Skip::Malformed)), "{}: {:?}", text, r);
    }
}

#[test]
fn a_root_that_is_no_component_is_skipped() {
    let r = xmlparse("a.xml", "<html/>", "a.desktop", "a", &PkgData::default(), &no_icons());
    assert!(matches!(r, Err(Skip::NotComponent)));
    let r = xmlparse_nondesktop("a.xml", "<application/>", "a");
    assert!(matches!(r, Err(Skip::NotComponent)));
}

#[test]
fn zero_width_spaces_do_not_reach_the_output() {
    let out = xmlparse_nondesktop(
        "/m/foo.metainfo.xml",
        "<component><name>F\u{200b}oo\u{200b}</name></component>",
        "foo",
    )
    .unwrap();
    assert_eq!(out.place, "metadata/foo::foo.xml");
    assert!(out.text.contains("<name>Foo</name>"));
    assert!(!out.text.contains('\u{200b}'));
}

#[test]
fn sanitize_takes_out_zero_width_spaces_only() {
    assert_eq!(sanitize("a\u{200b}b\u{200b}\u{200b}c"), "abc");
    assert_eq!(sanitize("\u{200b}"), "");
    assert_eq!(sanitize(""), "");
    assert_eq!(sanitize("\u{200c}x\u{feff} y\u{200b}"), "\u{200c}x\u{feff} y");
    assert_eq!(sanitize("äö\u{200b}ü€"), "äöü€");
}

#[test]
fn the_unmatched_document_of_a_package_is_written_without_launchable_and_icon() {
    let alpha = "<component type=\"desktop\"><id>alpha</id></component>";
    let beta = "<component type=\"desktop\"><id>beta</id><name>B</name></component>";
    let metas = vec![
        MetaFile { path: "/p/share/metainfo/alpha.appdata.xml".to_string(), text: Some(alpha.to_string()) },
        MetaFile { path: "/p/share/metainfo/beta.appdata.xml".to_string(), text: Some(beta.to_string()) },
    ];
    let desktops = vec![
        "/p/share/applications/alpha.desktop".to_string(),
        "/p/share/applications/other.desktop".to_string(),
    ];
    let r = genmeta(&metas, &desktops, "pkg", &PkgData::default());
    assert_eq!(r.pairings.len(), 1);
    assert_eq!(r.unmatched.len(), 1);
    assert_eq!(r.unmatched[0], "/p/share/metainfo/beta.appdata.xml");
    let out = xmlparse_nondesktop(&r.unmatched[0], beta, "pkg").unwrap();
    assert_eq!(out.place, "metadata/pkg::beta.xml");
    assert!(out.text.contains("<pkgname>pkg</pkgname>"));
    assert!(!out.text.contains("<launchable"));
    assert!(!out.text.contains("<icon"));
    let paired = xmlparse(
        &r.pairings[0].meta,
        alpha,
        &r.pairings[0].desktop,
        "pkg",
        &r.pairings[0].settings,
        &no_icons(),
    )
    .unwrap();
    assert_eq!(paired.place, "metadata/pkg::alpha.xml");
    assert!(paired.text.contains("<launchable type=\"desktop-id\">alpha.desktop</launchable>"));
}

#[test]
fn reading_and_writing_keep_the_tree() {
    let text = "<a x=\"1\" y=\"2\"><b>t &amp; u</b><!-- c --><c/><?pi data?></a>";
    let doc = read_document(text).unwrap();
    assert_eq!(doc.name, "a");
    assert_eq!(attrs(&doc), vec![pair("x", "1"), pair("y", "2")]);
    assert_eq!(doc.children.len(), 4);
    assert_eq!(text_of(child(&doc, 0)), "t & u");
    assert!(matches!(&doc.children[1], Node::Comment(c) if c == " c "));
    assert!(matches!(&doc.children[3], Node::Instruction(t, Some(d)) if t == "pi" && d == "data"));
    let written = write_document(&doc).unwrap();
    assert_eq!(
        written,
        "<?xml version=\"1.0\" encoding=\"UTF-8\"?>\n<a x=\"1\" y=\"2\">\n  <b>t &amp; u</b>\n  <!-- c -->\n  <c />\n  <?pi data?>\n</a>"
    );
    let again = read_document(&written).unwrap();
    assert_eq!(write_document(&again).unwrap(), written);
}

#[test]
fn the_source_of_the_metadata() {
    assert!(matches!(
        metadata_source(Some("https://x/y.xml".to_string()), true, true),
        MetaSource::Fetch(u) if u == "https://x/y.xml"
    ));
    assert!(matches!(metadata_source(None, true, true), MetaSource::Directory(d) if d == "metainfo"));
    assert!(matches!(metadata_source(None, false, true), MetaSource::Directory(d) if d == "appdata"));
    assert!(matches!(metadata_source(None, false, false), MetaSource::Nowhere));
}
