use nixos_appstream_generator::find::{xmlparse, PkgData};
use nixos_appstream_generator::icons::{
    catalog_sizes, icon_assets, icon_candidates, icon_status, icon_step, is_present, plan_icons,
    scalable_icon_file, IconStep,
    sized_icon_file, theme_icon_attempts, IconAttempt, IconMethod, IconStatus, IconTask,
};

fn files(items: &[&str]) -> Vec<String> {
    items.iter().map(|s| s.to_string()).collect()
}

fn seen(attempts: &Vec<IconAttempt>) -> Vec<(IconMethod, String)> {
    attempts.iter().map(|a| (a.method, a.source.clone())).collect()
}

fn way(method: IconMethod, source: &str) -> (IconMethod, String) {
    (method, source.to_string())
}

fn with_icon(url: &str, name: Option<&str>) -> PkgData {
    PkgData {
        id: None,
        icon: Some(url.to_string()),
        outputicon: name.map(|n| n.to_string()),
        outputmetainfo: None,
    }
}

#[test]
fn icon_files_of_the_theme() {
    assert_eq!(
        sized_icon_file("/nix/store/x", 64, "foo", ".png"),
        "/nix/store/x/share/icons/hicolor/64x64/apps/foo.png"
    );
    assert_eq!(
        sized_icon_file("", 1024, "a.b", ".svg"),
        "/share/icons/hicolor/1024x1024/apps/a.b.svg"
    );
    assert_eq!(scalable_icon_file("/p", "foo"), "/p/share/icons/hicolor/scalable/apps/foo.svg");
    assert_eq!(catalog_sizes(), vec![64, 72, 96, 128, 192, 256, 512, 1024]);
}

#[test]
fn is_present_compares_whole_paths() {
    let present = files(&["/a/b.png", "/a/c.png"]);
    assert!(is_present(&present, "/a/c.png"));
    assert!(!is_present(&present, "/a/c"));
    assert!(!is_present(&present, "c.png"));
    assert!(!is_present(&Vec::new(), ""));
}

#[test]
fn the_cascade_is_tried_in_its_order() {
    let present = files(&[
        "/p/share/icons/hicolor/512x512/apps/foo.svg",
        "/p/share/icons/hicolor/256x256/apps/foo.png",
        "/p/share/icons/hicolor/scalable/apps/foo.svg",
        "/p/share/icons/hicolor/128x128/apps/foo.svg",
        "/p/share/icons/hicolor/128x128/apps/foo.png",
        "/p/share/icons/hicolor/192x192/apps/foo.svg",
    ]);
    let got = theme_icon_attempts("/p", "foo", 128, &present);
    assert_eq!(
        seen(&got),
        vec![
            way(IconMethod::Copy, "/p/share/icons/hicolor/128x128/apps/foo.png"),
            way(IconMethod::Rasterize, "/p/share/icons/hicolor/128x128/apps/foo.svg"),
            way(IconMethod::Rasterize, "/p/share/icons/hicolor/scalable/apps/foo.svg"),
            way(IconMethod::Downscale, "/p/share/icons/hicolor/128x128/apps/foo.png"),
            way(IconMethod::Rasterize, "/p/share/icons/hicolor/128x128/apps/foo.svg"),
        ]
    );
}

#[test]
fn the_smallest_larger_size_of_the_catalog_is_taken() {
    let present = files(&[
        "/p/share/icons/hicolor/512x512/apps/foo.png",
        "/p/share/icons/hicolor/96x96/apps/foo.png",
        "/p/share/icons/hicolor/48x48/apps/foo.png",
        "/p/share/icons/hicolor/256x256/apps/foo.svg",
        "/p/share/icons/hicolor/100x100/apps/foo.png",
    ]);
    let small = theme_icon_attempts("/p", "foo", 64, &present);
    assert_eq!(
        seen(&small),
        vec![
            way(IconMethod::Downscale, "/p/share/icons/hicolor/96x96/apps/foo.png"),
            way(IconMethod::Rasterize, "/p/share/icons/hicolor/256x256/apps/foo.svg"),
        ]
    );
    let large = theme_icon_attempts("/p", "foo", 128, &present);
    assert_eq!(
        seen(&large),
        vec![
            way(IconMethod::Downscale, "/p/share/icons/hicolor/512x512/apps/foo.png"),
            way(IconMethod::Rasterize, "/p/share/icons/hicolor/256x256/apps/foo.svg"),
        ]
    );
}

#[test]
fn icons_of_another_name_or_package_do_not_count() {
    let present = files(&[
        "/p/share/icons/hicolor/64x64/apps/bar.png",
        "/q/share/icons/hicolor/64x64/apps/foo.png",
        "/p/share/icons/hicolor/32x32/apps/foo.png",
    ]);
    assert!(theme_icon_attempts("/p", "foo", 64, &present).is_empty());
}

#[test]
fn the_theme_is_searched_for_the_icon_of_the_desktop_entry() {
    let present = files(&[
        "/p/share/icons/hicolor/64x64/apps/foo.png",
        "/p/share/icons/hicolor/scalable/apps/foo.svg",
    ]);
    let entry = "[Desktop Entry]\nName=Foo\nIcon=foo\nExec=foo\n";
    let plan = plan_icons("/p", "/p/share/metainfo/x.xml", Some(entry), &PkgData::default(), &present);
    assert_eq!(plan.fetch, None);
    assert_eq!(plan.tasks.len(), 2);
    assert_eq!(plan.tasks[0].size, 128);
    assert_eq!(plan.tasks[0].name, "foo.png");
    assert_eq!(
        seen(&plan.tasks[0].attempts),
        vec![way(IconMethod::Rasterize, "/p/share/icons/hicolor/scalable/apps/foo.svg")]
    );
    assert_eq!(plan.tasks[1].size, 64);
    assert_eq!(plan.tasks[1].name, "foo.png");
    assert_eq!(
        seen(&plan.tasks[1].attempts),
        vec![
            way(IconMethod::Copy, "/p/share/icons/hicolor/64x64/apps/foo.png"),
            way(IconMethod::Rasterize, "/p/share/icons/hicolor/scalable/apps/foo.svg"),
            way(IconMethod::Downscale, "/p/share/icons/hicolor/64x64/apps/foo.png"),
        ]
    );
}

#[test]
fn a_name_that_was_asked_for_names_the_icons() {
    let settings = PkgData {
        id: None,
        icon: None,
        outputicon: Some("nice.png".to_string()),
        outputmetainfo: None,
    };
    let plan = plan_icons("/p", "m.xml", Some("Icon=foo"), &settings, &Vec::new());
    assert_eq!(plan.tasks.len(), 2);
    assert_eq!(plan.tasks[0].name, "nice.png");
    assert_eq!(plan.tasks[1].name, "nice.png");
    assert!(plan.tasks[0].attempts.is_empty());
    assert!(plan.tasks[1].attempts.is_empty());
}

#[test]
fn without_an_icon_name_nothing_is_planned() {
    let entry = "[Desktop Entry]\nName=Foo\n";
    let plan = plan_icons("/p", "m.xml", Some(entry), &PkgData::default(), &Vec::new());
    assert_eq!(plan.fetch, None);
    assert!(plan.tasks.is_empty());
    let plan = plan_icons("/p", "m.xml", None, &PkgData::default(), &Vec::new());
    assert!(plan.tasks.is_empty());
}

#[test]
fn an_icon_address_is_fetched_and_drawn_in_both_sizes() {
    let settings = with_icon("https://example.org/art/logo.svg", None);
    let plan = plan_icons(
        "/p",
        "/p/share/metainfo/org.example.Foo.metainfo.xml",
        Some("Icon=ignored"),
        &settings,
        &Vec::new(),
    );
    assert_eq!(plan.fetch.as_deref(), Some("https://example.org/art/logo.svg"));
    assert_eq!(plan.tasks.len(), 2);
    assert_eq!(plan.tasks[0].size, 64);
    assert_eq!(plan.tasks[1].size, 128);
    for t in &plan.tasks {
        assert_eq!(t.name, "org.example.Foo.png");
        assert_eq!(seen(&t.attempts), vec![way(IconMethod::Rasterize, "tmp/logo.svg")]);
    }
    let named = with_icon("https://example.org/art/logo.svg", Some("foo.png"));
    let plan = plan_icons("/p", "m.xml", None, &named, &Vec::new());
    assert_eq!(plan.tasks[0].name, "foo.png");
    assert_eq!(plan.tasks[1].name, "foo.png");
}

#[test]
fn a_failure_for_one_size_leaves_the_other() {
    let settings = with_icon("https://example.org/logo.svg", None);
    let plan = plan_icons("/p", "/m/foo.appdata.xml", None, &settings, &Vec::new());
    let assets = icon_assets(&plan.tasks, &vec![None, Some(0)]);
    assert_eq!(assets.len(), 1);
    assert_eq!(assets[0].size, 128);
    assert_eq!(assets[0].name, "foo.png");
    assert_eq!(assets[0].method, IconMethod::Rasterize);
    assert_eq!(assets[0].source, "tmp/logo.svg");
    assert_eq!(icon_status(assets.len()), IconStatus::Partial);
    let out = xmlparse(
        "/m/foo.appdata.xml",
        "<component><id>foo</id></component>",
        "/d/foo.desktop",
        "foo",
        &settings,
        &assets,
    )
    .unwrap();
    assert!(out.text.contains("<icon type=\"cached\" width=\"128\" height=\"128\">foo.png</icon>"));
    assert!(!out.text.contains("width=\"64\""));
    assert!(out.text.contains("<pkgname>foo</pkgname>"));
}

#[test]
fn each_task_counts_by_its_own_outcome() {
    let plan = plan_icons(
        "/p",
        "m.xml",
        Some("Icon=foo"),
        &PkgData::default(),
        &files(&["/p/share/icons/hicolor/scalable/apps/foo.svg"]),
    );
    let both = icon_assets(&plan.tasks, &vec![Some(0), Some(0)]);
    assert_eq!(both.iter().map(|a| a.size).collect::<Vec<u32>>(), vec![128, 64]);
    let first = icon_assets(&plan.tasks, &vec![Some(0), None]);
    assert_eq!(first.iter().map(|a| a.size).collect::<Vec<u32>>(), vec![128]);
    let second = icon_assets(&plan.tasks, &vec![None, Some(0)]);
    assert_eq!(second.iter().map(|a| a.size).collect::<Vec<u32>>(), vec![64]);
    let none = icon_assets(&plan.tasks, &vec![None, None]);
    assert!(none.is_empty());
}

#[test]
fn a_report_that_is_short_or_wrong_counts_as_failure() {
    let task = IconTask {
        size: 64,
        name: "a.png".to_string(),
        attempts: vec![
            IconAttempt { method: IconMethod::Copy, source: "x".to_string() },
            IconAttempt { method: IconMethod::Downscale, source: "y".to_string() },
        ],
    };
    let tasks = vec![task];
    assert!(icon_assets(&tasks, &Vec::new()).is_empty());
    assert!(icon_assets(&tasks, &vec![Some(2)]).is_empty());
    let got = icon_assets(&tasks, &vec![Some(1), Some(0)]);
    assert_eq!(got.len(), 1);
    assert_eq!(got[0].method, IconMethod::Downscale);
    assert_eq!(got[0].source, "y");
    assert_eq!(got[0].size, 64);
    assert_eq!(got[0].name, "a.png");
}

#[test]
fn the_status_counts_the_assets() {
    assert_eq!(icon_status(0), IconStatus::Missing);
    assert_eq!(icon_status(1), IconStatus::Partial);
    assert_eq!(icon_status(2), IconStatus::Complete);
}

#[test]
fn the_candidates_are_all_sizes_of_both_kinds_and_the_scalable_drawing() {
    let got = icon_candidates("/p", "foo");
    assert_eq!(got.len(), 17);
    assert_eq!(got[0], "/p/share/icons/hicolor/64x64/apps/foo.png");
    assert_eq!(got[3], "/p/share/icons/hicolor/128x128/apps/foo.png");
    assert_eq!(got[7], "/p/share/icons/hicolor/1024x1024/apps/foo.png");
    assert_eq!(got[8], "/p/share/icons/hicolor/64x64/apps/foo.svg");
    assert_eq!(got[15], "/p/share/icons/hicolor/1024x1024/apps/foo.svg");
    assert_eq!(got[16], "/p/share/icons/hicolor/scalable/apps/foo.svg");
}

#[test]
fn every_attempt_starts_from_a_candidate_that_is_present() {
    let all = icon_candidates("/p", "foo");
    for size in [64u32, 128u32] {
        let got = theme_icon_attempts("/p", "foo", size, &all);
        assert_eq!(got.len(), 5);
        for a in &got {
            assert!(all.contains(&a.source));
        }
        assert_eq!(got[0].source, sized_icon_file("/p", size, "foo", ".png"));
        assert_eq!(got[3].source, sized_icon_file("/p", size, "foo", ".png"));
        assert_eq!(got[4].source, sized_icon_file("/p", size, "foo", ".svg"));
    }
}

#[test]
fn attempts_are_tried_in_order_until_one_works() {
    let task = IconTask {
        size: 64,
        name: "a.png".to_string(),
        attempts: vec![
            IconAttempt { method: IconMethod::Copy, source: "x".to_string() },
            IconAttempt { method: IconMethod::Rasterize, source: "y".to_string() },
        ],
    };
    assert_eq!(icon_step(&task, None), IconStep::Try(0));
    assert_eq!(icon_step(&task, Some((0, true))), IconStep::Done(Some(0)));
    assert_eq!(icon_step(&task, Some((0, false))), IconStep::Try(1));
    assert_eq!(icon_step(&task, Some((1, true))), IconStep::Done(Some(1)));
    assert_eq!(icon_step(&task, Some((1, false))), IconStep::Done(None));
    assert_eq!(icon_step(&task, Some((usize::MAX, false))), IconStep::Done(None));
    let empty = IconTask { size: 64, name: "a.png".to_string(), attempts: Vec::new() };
    assert_eq!(icon_step(&empty, None), IconStep::Done(None));
}

#[test]
fn a_fetched_icon_is_named_by_the_canonical_id() {
    let settings = with_icon("https://example.org/logo.svg", None);
    let plan = plan_icons("/p", "/m/a.xml.xml", None, &settings, &Vec::new());
    assert_eq!(plan.tasks[0].name, "a.xml.png");
}
