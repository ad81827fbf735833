use nixos_appstream_generator::desktop::desktop_icon;
use nixos_appstream_generator::find::findfiles;
use nixos_appstream_generator::names::{
    canonical_id, extension, fetch_place, file_name, icon_place, metadata_place, output_id,
    share_directory,
};
use nixos_appstream_generator::text::{
    chars_of, contains, decimal, join2, last_part, matches_at, strip_suffix, text_eq, text_less,
    trim, white_space,
};

#[test]
fn contains_finds_a_piece_anywhere() {
    assert!(contains("hello world", "o w"));
    assert!(contains("hello", "hello"));
    assert!(contains("hello", ""));
    assert!(contains("", ""));
    assert!(contains("aab", "ab"));
    assert!(contains("xx.desktop", ".desktop"));
    assert!(!contains("hello", "hello!"));
    assert!(!contains("", "a"));
    assert!(!contains("abc", "ac"));
    assert!(contains("grüße", "üß"));
}

#[test]
fn matches_at_looks_at_one_position() {
    let s = chars_of("abcabc");
    let p = chars_of("bc");
    assert!(matches_at(&s, &p, 1));
    assert!(matches_at(&s, &p, 4));
    assert!(!matches_at(&s, &p, 0));
    assert!(!matches_at(&s, &p, 3));
    assert!(!matches_at(&s, &p, 5));
    assert!(!matches_at(&s, &p, 6));
    assert!(!matches_at(&s, &p, 60));
    assert!(matches_at(&s, &chars_of(""), 6));
    assert!(!matches_at(&s, &chars_of(""), 7));
}

#[test]
fn a_suffix_is_stripped_once_and_only_at_the_end() {
    assert_eq!(strip_suffix("a.xml.xml", ".xml"), "a.xml");
    assert_eq!(strip_suffix("a.xml", ".xml"), "a");
    assert_eq!(strip_suffix(".xml", ".xml"), "");
    assert_eq!(strip_suffix("a.xmlx", ".xml"), "a.xmlx");
    assert_eq!(strip_suffix("xml", ".xml"), "xml");
    assert_eq!(strip_suffix("", ".xml"), "");
    assert_eq!(strip_suffix("abc", ""), "abc");
    assert_eq!(strip_suffix("äöü", "ü"), "äö");
}

#[test]
fn trim_takes_white_space_from_both_ends() {
    let samples = [
        "", " ", "a", " a", "a ", "  a b  ", "\t\n\r x \u{b}\u{c}", "\u{a0}x\u{a0}", "\u{85}x\u{1680}",
        "\u{2000}\u{200a}x\u{2028}\u{2029}", "\u{202f}x\u{205f}\u{3000}", "\u{200b}x\u{200b}",
        "\u{feff}x", "x\u{1c}", "  ", "a\u{a0}b", "\u{180e}x", "\u{8}x\u{e}",
    ];
    for s in samples {
        assert_eq!(trim(s), s.trim(), "{:?}", s);
    }
    for c in 0u32..0x3100 {
        if let Some(c) = char::from_u32(c) {
            assert_eq!(white_space(c), c.is_whitespace(), "{:?}", c);
        }
    }
}

#[test]
fn last_part_is_what_follows_the_last_separator() {
    assert_eq!(last_part("/a/b/c.xml", '/'), "c.xml");
    assert_eq!(last_part("c.xml", '/'), "c.xml");
    assert_eq!(last_part("/a/b/", '/'), "");
    assert_eq!(last_part("", '/'), "");
    assert_eq!(last_part("/", '/'), "");
    assert_eq!(last_part("https://x.org/a?b=c", '/'), "a?b=c");
}

#[test]
fn texts_are_ordered_by_their_characters() {
    assert!(text_less("", "a"));
    assert!(text_less("a", "b"));
    assert!(text_less("a", "aa"));
    assert!(text_less("Z", "a"));
    assert!(text_less("de", "fr"));
    assert!(text_less("pt", "pt_BR"));
    assert!(text_less("z", "é"));
    assert!(!text_less("a", "a"));
    assert!(!text_less("b", "a"));
    assert!(!text_less("aa", "a"));
    assert!(!text_less("", ""));
    for (a, b) in [("de", "fr"), ("", "x"), ("ab", "abc"), ("A", "a"), ("z", "ä"), ("x", "x")] {
        assert_eq!(text_less(a, b), a < b);
        assert_eq!(text_less(b, a), b < a);
    }
}

#[test]
fn joining_and_comparing() {
    assert_eq!(join2("ab", "cd"), "abcd");
    assert_eq!(join2("", ""), "");
    assert!(text_eq("abc", "abc"));
    assert!(!text_eq("abc", "abd"));
    assert!(!text_eq("abc", "ab"));
    assert_eq!(chars_of("aé€"), vec!['a', 'é', '€']);
}

#[test]
fn numbers_are_written_in_decimal() {
    assert_eq!(decimal(0), "0");
    assert_eq!(decimal(7), "7");
    assert_eq!(decimal(10), "10");
    assert_eq!(decimal(64), "64");
    assert_eq!(decimal(128), "128");
    assert_eq!(decimal(1024), "1024");
    assert_eq!(decimal(907), "907");
    assert_eq!(decimal(4294967295), "4294967295");
}

#[test]
fn the_canonical_id_drops_the_known_endings() {
    assert_eq!(canonical_id("/p/share/metainfo/org.gnome.Foo.appdata.xml"), "org.gnome.Foo");
    assert_eq!(canonical_id("/p/share/metainfo/org.gnome.Foo.metainfo.xml"), "org.gnome.Foo");
    assert_eq!(canonical_id("foo.xml"), "foo");
    assert_eq!(canonical_id("tmp/foo"), "foo");
    assert_eq!(canonical_id("/p/.xml"), "");
    assert_eq!(canonical_id("foo.appdata"), "foo");
    assert_eq!(canonical_id("foo.metainfo"), "foo");
}

#[test]
fn only_the_endings_are_dropped_and_each_once() {
    assert_eq!(canonical_id("a.xml.xml"), "a.xml");
    assert_eq!(canonical_id("my.xml.editor.appdata.xml"), "my.xml.editor");
    assert_eq!(canonical_id("/a.appdata/b.xml.metainfo.appdata.xml"), "b.xml.metainfo");
    assert_eq!(canonical_id("b.appdata.metainfo.xml"), "b.appdata");
    assert_eq!(canonical_id("/p/x.appdataa.xmlt"), "x.appdataa.xmlt");
    assert_eq!(canonical_id("a.appdata.appdata.xml"), "a.appdata");
    assert_eq!(canonical_id("a.xml.appdata"), "a.xml");
}

#[test]
fn file_names_and_places() {
    assert_eq!(file_name("/p/share/applications/foo.desktop"), "foo.desktop");
    assert_eq!(file_name("foo.desktop"), "foo.desktop");
    assert_eq!(fetch_place("https://example.org/a/b/icon.svg"), "tmp/icon.svg");
    assert_eq!(fetch_place("icon.svg"), "tmp/icon.svg");
    assert_eq!(metadata_place("firefox", "org.mozilla.firefox"), "metadata/firefox::org.mozilla.firefox.xml");
    assert_eq!(icon_place(64, "foo.png"), "icons/64x64/foo.png");
    assert_eq!(icon_place(128, "foo.png"), "icons/128x128/foo.png");
}

#[test]
fn the_output_id_is_the_asked_name_or_the_canonical_id() {
    assert_eq!(output_id("/m/foo.appdata.xml", &None), "foo");
    assert_eq!(output_id("/m/foo.appdata.xml", &Some("bar.xml".to_string())), "bar");
    assert_eq!(output_id("/m/foo.appdata.xml", &Some("bar.appdata.xml".to_string())), "bar.appdata");
    assert_eq!(output_id("/m/foo.appdata.xml", &Some("bar".to_string())), "bar");
    assert_eq!(output_id("/m/foo.appdata.xml", &Some("a.xml.xml".to_string())), "a.xml");
    assert_eq!(output_id("/m/foo.appdata.xml", &Some("a.xml.b".to_string())), "a.xml.b");
}

#[test]
fn the_icon_is_the_value_of_the_first_icon_line() {
    assert_eq!(desktop_icon("[Desktop Entry]\nName=Foo\nIcon=foo\nExec=foo").as_deref(), Some("foo"));
    assert_eq!(desktop_icon("Icon=foo").as_deref(), Some("foo"));
    assert_eq!(desktop_icon("Icon=foo\n").as_deref(), Some("foo"));
    assert_eq!(desktop_icon("Icon=a\nIcon=b\n").as_deref(), Some("a"));
    assert_eq!(desktop_icon("Icon=\nIcon=b\n").as_deref(), Some(""));
    assert_eq!(desktop_icon("Icon=org.example.Foo\r\nExec=x\r\n").as_deref(), Some("org.example.Foo"));
    assert_eq!(desktop_icon("Icon=a=b=c\n").as_deref(), Some("a=b=c"));
    assert_eq!(desktop_icon("Icon==\n").as_deref(), Some("="));
    assert_eq!(desktop_icon("Icon=/usr/share/x.png\n").as_deref(), Some("/usr/share/x.png"));
    assert_eq!(desktop_icon("Icon=ünï\n").as_deref(), Some("ünï"));
}

#[test]
fn other_lines_name_no_icon() {
    assert_eq!(desktop_icon(""), None);
    assert_eq!(desktop_icon("\n\n"), None);
    assert_eq!(desktop_icon("Name=Foo\nExec=foo"), None);
    assert_eq!(desktop_icon(" Icon=foo"), None);
    assert_eq!(desktop_icon("icon=foo"), None);
    assert_eq!(desktop_icon("Icon"), None);
    assert_eq!(desktop_icon("Icon[de]=foo"), None);
    assert_eq!(desktop_icon("X-Icon=foo\nIcon =foo"), None);
}

#[test]
fn a_carriage_return_stays_where_no_line_feed_follows() {
    assert_eq!(desktop_icon("Icon=foo\r").as_deref(), Some("foo\r"));
    assert_eq!(desktop_icon("Icon=fo\ro\r\n").as_deref(), Some("fo\ro"));
}

#[test]
fn the_extension_follows_the_last_dot_of_the_file_name() {
    assert_eq!(extension("/a/b/foo.desktop").as_deref(), Some("desktop"));
    assert_eq!(extension("foo.appdata.xml").as_deref(), Some("xml"));
    assert_eq!(extension("/a.b/foo"), None);
    assert_eq!(extension("/a/.hidden"), None);
    assert_eq!(extension("/a/.hidden.xml").as_deref(), Some("xml"));
    assert_eq!(extension("/a/foo.").as_deref(), Some(""));
    assert_eq!(extension(""), None);
    assert_eq!(extension("/a/b/"), None);
    for p in ["/a/b/foo.desktop", "foo.appdata.xml", "/a.b/foo", "/a/.hidden", "/a/.hidden.xml", "x.XML"] {
        let std_ext = std::path::Path::new(p).extension().map(|e| e.to_string_lossy().to_string());
        assert_eq!(extension(p), std_ext);
    }
}

#[test]
fn files_are_kept_by_their_extension() {
    let listed: Vec<String> = ["/d/a.xml", "/d/b.desktop", "/d/c.XML", "/d/xml", "/d/.xml", "/d/e.metainfo.xml", "/d/f.xml.bak"]
        .iter()
        .map(|s| s.to_string())
        .collect();
    assert_eq!(findfiles(&listed, "xml"), vec!["/d/a.xml", "/d/e.metainfo.xml"]);
    assert_eq!(findfiles(&listed, "desktop"), vec!["/d/b.desktop"]);
    assert!(findfiles(&listed, "png").is_empty());
    assert!(findfiles(&Vec::new(), "xml").is_empty());
}

#[test]
fn directories_below_share() {
    assert_eq!(share_directory("/nix/store/x", "metainfo"), "/nix/store/x/share/metainfo");
    assert_eq!(share_directory("", "applications"), "/share/applications");
}
