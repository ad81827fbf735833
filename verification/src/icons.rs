//! Icon resolution: which icon files to produce for a component, from which
//! sources, and which of them count once the work was tried.
//!
//! Nothing here touches a file. `plan_icons` lists, for each size, the ways to
//! produce the icon in the order in which they are to be tried; a caller
//! tries them and reports, for each size, which way worked; `icon_assets`
//! turns that report into the assets that a document may name.

use crate::desktop::{desktop_icon, icon_of};
use crate::names::{canonical_id, canonical_id_of, fetch_place, fetch_place_of};
use crate::overrides::{PkgData, PkgDataModel};
use crate::sequences::{first_where, lemma_first_where, lemma_first_where_is};
use crate::text::{decimal, decimal_text, join2, text_eq, text_option, texts_model};
use vstd::prelude::*;
use vstd::string::StringExecFns;

verus! {

/// How an icon file is made from its source.
#[derive(Debug, Clone, Copy, PartialEq, Eq, Structural)]
pub enum IconMethod {
    /// The source has the right size: it is copied as it is.
    Copy,
    /// The source is drawn, centred and not stretched, on a transparent
    /// square of the wanted size.
    Rasterize,
    /// The source is a larger bitmap: it is scaled down.
    Downscale,
}

/// One way to produce an icon: a method and the file it starts from.
#[derive(Debug)]
pub struct IconAttempt {
    pub method: IconMethod,
    pub source: String,
}

/// The icon of one size: the name of the file to write and the ways to
/// produce it, in the order in which they are to be tried.
#[derive(Debug)]
pub struct IconTask {
    pub size: u32,
    pub name: String,
    pub attempts: Vec<IconAttempt>,
}

/// What is to be done for the icons of one component.
#[derive(Debug)]
pub struct IconPlan {
    /// The address to fetch first, to the place `fetch_place` gives.
    pub fetch: Option<String>,
    pub tasks: Vec<IconTask>,
}

/// An icon that was produced.
#[derive(Debug)]
pub struct IconAsset {
    pub size: u32,
    pub name: String,
    pub method: IconMethod,
    pub source: String,
}

/// What is to be done next for one task.
#[derive(Debug, Clone, Copy, PartialEq, Eq, Structural)]
pub enum IconStep {
    /// Try the attempt at this position.
    Try(usize),
    /// The task is over: with the attempt at this position, or without an
    /// icon.
    Done(Option<usize>),
}

/// How many of the wanted icons were produced.
#[derive(Debug, Clone, Copy, PartialEq, Eq, Structural)]
pub enum IconStatus {
    /// No icon was produced.
    Missing,
    /// One icon was produced, another was not.
    Partial,
    /// Every wanted icon was produced.
    Complete,
}

/// The view of an `IconAttempt`.
pub struct IconAttemptModel {
    pub method: IconMethod,
    pub source: Seq<char>,
}

/// The view of an `IconTask`.
pub struct IconTaskModel {
    pub size: u32,
    pub name: Seq<char>,
    pub attempts: Seq<IconAttemptModel>,
}

/// The view of an `IconPlan`.
pub struct IconPlanModel {
    pub fetch: Option<Seq<char>>,
    pub tasks: Seq<IconTaskModel>,
}

/// The view of an `IconAsset`.
pub struct IconAssetModel {
    pub size: u32,
    pub name: Seq<char>,
    pub method: IconMethod,
    pub source: Seq<char>,
}

impl View for IconAttempt {
    type V = IconAttemptModel;

    open spec fn view(&self) -> IconAttemptModel {
        IconAttemptModel { method: self.method, source: self.source@ }
    }
}

/// The views of a sequence of attempts.
pub open spec fn attempts_model(s: Seq<IconAttempt>) -> Seq<IconAttemptModel> {
    s.map_values(|a: IconAttempt| a@)
}

impl View for IconTask {
    type V = IconTaskModel;

    open spec fn view(&self) -> IconTaskModel {
        IconTaskModel {
            size: self.size,
            name: self.name@,
            attempts: attempts_model(self.attempts@),
        }
    }
}

/// The views of a sequence of tasks.
pub open spec fn tasks_model(s: Seq<IconTask>) -> Seq<IconTaskModel> {
    s.map_values(|t: IconTask| t@)
}

impl View for IconPlan {
    type V = IconPlanModel;

    open spec fn view(&self) -> IconPlanModel {
        IconPlanModel { fetch: text_option(self.fetch), tasks: tasks_model(self.tasks@) }
    }
}

impl View for IconAsset {
    type V = IconAssetModel;

    open spec fn view(&self) -> IconAssetModel {
        IconAssetModel {
            size: self.size,
            name: self.name@,
            method: self.method,
            source: self.source@,
        }
    }
}

/// The views of a sequence of assets.
pub open spec fn assets_model(s: Seq<IconAsset>) -> Seq<IconAssetModel> {
    s.map_values(|a: IconAsset| a@)
}

/// The sizes in which a theme may hold an icon.
pub open spec fn catalog() -> Seq<u32> {
    seq![64u32, 72u32, 96u32, 128u32, 192u32, 256u32, 512u32, 1024u32]
}

/// The file of the icon `icon` in the size `size` of the package's theme, with
/// the ending `ext`.
pub open spec fn sized_file(path: Seq<char>, size: nat, icon: Seq<char>, ext: Seq<char>) -> Seq<
    char,
> {
    path + "/share/icons/hicolor/"@ + decimal_text(size) + "x"@ + decimal_text(size) + "/apps/"@
        + icon + ext
}

/// The file of the scalable icon `icon` of the package's theme.
pub open spec fn scalable_file(path: Seq<char>, icon: Seq<char>) -> Seq<char> {
    path + "/share/icons/hicolor/scalable/apps/"@ + icon + ".svg"@
}

/// The attempt `method` on `source`, if that file is among `present`.
pub open spec fn if_present(present: Seq<Seq<char>>, method: IconMethod, source: Seq<char>) -> Seq<
    IconAttemptModel,
> {
    if present.contains(source) {
        seq![IconAttemptModel { method, source }]
    } else {
        Seq::empty()
    }
}

/// The test "is a size of at least `size` in which the theme holds the icon".
pub open spec fn usable_size(
    path: Seq<char>,
    icon: Seq<char>,
    size: u32,
    ext: Seq<char>,
    present: Seq<Seq<char>>,
) -> spec_fn(u32) -> bool {
    |c: u32| c >= size && present.contains(sized_file(path, c as nat, icon, ext))
}

/// The attempt `method` on the icon file of the smallest size of the catalog
/// that is at least `size` and whose file is among `present`.
pub open spec fn from_catalog(
    path: Seq<char>,
    icon: Seq<char>,
    size: u32,
    ext: Seq<char>,
    present: Seq<Seq<char>>,
    method: IconMethod,
) -> Seq<IconAttemptModel> {
    let i = first_where(catalog(), usable_size(path, icon, size, ext, present));
    if i < catalog().len() {
        seq![
            IconAttemptModel { method, source: sized_file(path, catalog()[i] as nat, icon, ext) },
        ]
    } else {
        Seq::empty()
    }
}

/// The ways to produce the icon `icon` in the size `size` from the package's
/// theme, in the order in which they are tried: the bitmap of that size, the
/// drawing of that size, the scalable drawing, the smallest larger bitmap, the
/// smallest larger drawing; each only if its file is among `present`.
pub open spec fn theme_attempts(
    path: Seq<char>,
    icon: Seq<char>,
    size: u32,
    present: Seq<Seq<char>>,
) -> Seq<IconAttemptModel> {
    if_present(present, IconMethod::Copy, sized_file(path, size as nat, icon, ".png"@)) + if_present(
        present,
        IconMethod::Rasterize,
        sized_file(path, size as nat, icon, ".svg"@),
    ) + if_present(present, IconMethod::Rasterize, scalable_file(path, icon)) + from_catalog(
        path,
        icon,
        size,
        ".png"@,
        present,
        IconMethod::Downscale,
    ) + from_catalog(path, icon, size, ".svg"@, present, IconMethod::Rasterize)
}

/// The files of the icon `icon` in the first `k` sizes of the catalog, with the
/// ending `ext`.
pub open spec fn sized_files(path: Seq<char>, icon: Seq<char>, ext: Seq<char>, k: nat) -> Seq<
    Seq<char>,
>
    decreases k,
{
    if k == 0 || k > catalog().len() {
        Seq::empty()
    } else {
        sized_files(path, icon, ext, (k - 1) as nat).push(
            sized_file(path, catalog()[k - 1] as nat, icon, ext),
        )
    }
}

/// Every file from which the icon `icon` may be taken: the bitmaps and the
/// drawings in the sizes of the catalog, and the scalable drawing.
pub open spec fn candidates(path: Seq<char>, icon: Seq<char>) -> Seq<Seq<char>> {
    sized_files(path, icon, ".png"@, catalog().len()) + sized_files(
        path,
        icon,
        ".svg"@,
        catalog().len(),
    ).push(scalable_file(path, icon))
}

/// The name of the icon files: the name that was asked for, else `base`
/// with `.png`.
pub open spec fn icon_name_of(asked: Option<Seq<char>>, base: Seq<char>) -> Seq<char> {
    match asked {
        Some(name) => name,
        None => base + ".png"@,
    }
}

/// The task for one size when the icon comes from the address `url`.
pub open spec fn fetched_task(size: u32, name: Seq<char>, url: Seq<char>) -> IconTaskModel {
    IconTaskModel {
        size,
        name,
        attempts: seq![
            IconAttemptModel { method: IconMethod::Rasterize, source: fetch_place_of(url) },
        ],
    }
}

/// The task for one size when the icon comes from the package's theme.
pub open spec fn theme_task(
    path: Seq<char>,
    icon: Seq<char>,
    size: u32,
    name: Seq<char>,
    present: Seq<Seq<char>>,
) -> IconTaskModel {
    IconTaskModel { size, name, attempts: theme_attempts(path, icon, size, present) }
}

/// The icon that the desktop entry names, if there is an entry and it names
/// one.
pub open spec fn entry_icon(desktop: Option<Seq<char>>) -> Option<Seq<char>> {
    match desktop {
        Some(text) => icon_of(text),
        None => None,
    }
}

/// What is to be done for the icons of the component made from the document
/// `meta`, for a package installed at `path`.
///
/// With an icon address among the settings that address is fetched and drawn
/// in 64 and in 128, under the name asked for or the document's canonical
/// id. Otherwise the icon that the desktop entry names is looked up in the
/// package's theme, for 128 and for 64; without such a name nothing is done.
pub open spec fn planned_icons(
    path: Seq<char>,
    meta: Seq<char>,
    desktop: Option<Seq<char>>,
    settings: PkgDataModel,
    present: Seq<Seq<char>>,
) -> IconPlanModel {
    match settings.icon {
        Some(url) => {
            let name = icon_name_of(settings.outputicon, canonical_id_of(meta));
            IconPlanModel {
                fetch: Some(url),
                tasks: seq![fetched_task(64, name, url), fetched_task(128, name, url)],
            }
        },
        None => match entry_icon(desktop) {
            Some(icon) => {
                let name = icon_name_of(settings.outputicon, icon);
                IconPlanModel {
                    fetch: None,
                    tasks: seq![
                        theme_task(path, icon, 128, name, present),
                        theme_task(path, icon, 64, name, present),
                    ],
                }
            },
            None => IconPlanModel { fetch: None, tasks: Seq::empty() },
        },
    }
}

/// The name under which the icons of a plan are written.
pub open spec fn planned_name(
    meta: Seq<char>,
    desktop: Option<Seq<char>>,
    settings: PkgDataModel,
) -> Seq<char> {
    match settings.icon {
        Some(_) => icon_name_of(settings.outputicon, canonical_id_of(meta)),
        None => match entry_icon(desktop) {
            Some(icon) => icon_name_of(settings.outputicon, icon),
            None => Seq::empty(),
        },
    }
}

/// What is to be done next for a task with `count` attempts, given the
/// attempt that was tried last and whether it worked: the first attempt at
/// the beginning, the next attempt after a failure, and the end after a
/// success or when no attempt is left.
pub open spec fn next_step(count: nat, last: Option<(usize, bool)>) -> IconStep {
    match last {
        None => if count > 0 {
            IconStep::Try(0)
        } else {
            IconStep::Done(None)
        },
        Some((i, worked)) => if worked {
            IconStep::Done(Some(i))
        } else if i + 1 < count {
            IconStep::Try((i + 1) as usize)
        } else {
            IconStep::Done(None)
        },
    }
}

/// What is reported for the task at position `i`: nothing where the report
/// is too short.
pub open spec fn outcome_at(outcomes: Seq<Option<usize>>, i: int) -> Option<usize> {
    if 0 <= i < outcomes.len() {
        outcomes[i]
    } else {
        None
    }
}

/// The asset of a task, given which of its attempts worked.
pub open spec fn asset_of(task: IconTaskModel, outcome: Option<usize>) -> Option<IconAssetModel> {
    match outcome {
        Some(i) => if i < task.attempts.len() {
            Some(
                IconAssetModel {
                    size: task.size,
                    name: task.name,
                    method: task.attempts[i as int].method,
                    source: task.attempts[i as int].source,
                },
            )
        } else {
            None
        },
        None => None,
    }
}

/// The assets of the first `k` tasks, in the order of the tasks.
pub open spec fn assets_upto(tasks: Seq<IconTaskModel>, outcomes: Seq<Option<usize>>, k: nat) -> Seq<
    IconAssetModel,
>
    decreases k,
{
    if k == 0 || k > tasks.len() {
        Seq::empty()
    } else {
        let before = assets_upto(tasks, outcomes, (k - 1) as nat);
        match asset_of(tasks[k - 1], outcome_at(outcomes, k - 1)) {
            Some(a) => before.push(a),
            None => before,
        }
    }
}

/// The assets of all tasks: one for each task of which an attempt worked.
pub open spec fn assets_of(tasks: Seq<IconTaskModel>, outcomes: Seq<Option<usize>>) -> Seq<
    IconAssetModel,
> {
    assets_upto(tasks, outcomes, tasks.len())
}

/// What the number of assets says of a component that wants two icons.
pub open spec fn status_of(produced: nat) -> IconStatus {
    if produced == 0 {
        IconStatus::Missing
    } else if produced == 1 {
        IconStatus::Partial
    } else {
        IconStatus::Complete
    }
}

/// Both sizes are always planned.
///
/// Whenever there is an icon to produce, from an address or from a name in
/// the desktop entry, the plan holds one task for 64 and one for 128. What is
/// planned for one size does not depend on the other: each task is made from
/// the inputs alone.
pub proof fn lemma_both_sizes_planned(
    path: Seq<char>,
    meta: Seq<char>,
    desktop: Option<Seq<char>>,
    settings: PkgDataModel,
    present: Seq<Seq<char>>,
)
    requires
        settings.icon is Some || entry_icon(desktop) is Some,
    ensures
        planned_icons(path, meta, desktop, settings, present).tasks.len() == 2,
        settings.icon is Some ==> planned_icons(path, meta, desktop, settings, present).tasks[0].size
            == 64 && planned_icons(path, meta, desktop, settings, present).tasks[1].size == 128
            && planned_icons(path, meta, desktop, settings, present).tasks[0].attempts.len() == 1
            && planned_icons(path, meta, desktop, settings, present).tasks[1].attempts.len() == 1,
        settings.icon is None ==> planned_icons(path, meta, desktop, settings, present).tasks[0].size
            == 128 && planned_icons(path, meta, desktop, settings, present).tasks[1].size == 64,
{
}

/// The file of each size of the catalog is among the files of the sizes.
proof fn lemma_sized_files(path: Seq<char>, icon: Seq<char>, ext: Seq<char>, k: nat, i: int)
    requires
        0 <= i < k <= catalog().len(),
    ensures
        sized_files(path, icon, ext, k).contains(sized_file(path, catalog()[i] as nat, icon, ext)),
    decreases k,
{
    let now = sized_files(path, icon, ext, k);
    if i == k - 1 {
        assert(now[now.len() - 1] == sized_file(path, catalog()[i] as nat, icon, ext));
    } else {
        lemma_sized_files(path, icon, ext, (k - 1) as nat, i);
        let before = sized_files(path, icon, ext, (k - 1) as nat);
        let w = choose|w: int|
            0 <= w < before.len() && before[w] == sized_file(path, catalog()[i] as nat, icon, ext);
        assert(now[w] == before[w]);
    }
}

/// Nothing is tried that is not there, and nothing beside the candidates.
///
/// Every attempt for 64 or for 128 starts from a file that is among
/// `present`, and that file is one of the candidates.
pub proof fn lemma_attempts_are_candidates(
    path: Seq<char>,
    icon: Seq<char>,
    size: u32,
    present: Seq<Seq<char>>,
    i: int,
)
    requires
        size == 64 || size == 128,
        0 <= i < theme_attempts(path, icon, size, present).len(),
    ensures
        present.contains(theme_attempts(path, icon, size, present)[i].source),
        candidates(path, icon).contains(theme_attempts(path, icon, size, present)[i].source),
{
    let source = theme_attempts(path, icon, size, present)[i].source;
    let all = candidates(path, icon);
    let n = catalog().len();
    let at: int = if size == 64 {
        0
    } else {
        3
    };
    assert(catalog()[at] == size);
    let bitmaps = sized_files(path, icon, ".png"@, n);
    let drawings = sized_files(path, icon, ".svg"@, n);
    assert forall|c: int| 0 <= c < n implies all.contains(
        sized_file(path, catalog()[c] as nat, icon, ".png"@),
    ) && all.contains(sized_file(path, catalog()[c] as nat, icon, ".svg"@)) by {
        lemma_sized_files(path, icon, ".png"@, n, c);
        lemma_sized_files(path, icon, ".svg"@, n, c);
        let w = choose|w: int|
            0 <= w < bitmaps.len() && bitmaps[w] == sized_file(
                path,
                catalog()[c] as nat,
                icon,
                ".png"@,
            );
        assert(all[w] == bitmaps[w]);
        let v = choose|v: int|
            0 <= v < drawings.len() && drawings[v] == sized_file(
                path,
                catalog()[c] as nat,
                icon,
                ".svg"@,
            );
        assert(all[bitmaps.len() + v] == drawings[v]);
    }
    assert(all[all.len() - 1] == scalable_file(path, icon));
    lemma_first_where(catalog(), usable_size(path, icon, size, ".png"@, present));
    lemma_first_where(catalog(), usable_size(path, icon, size, ".svg"@, present));
}

/// The asset of a task stays among the assets when further tasks are counted.
proof fn lemma_assets_upto_grows(
    tasks: Seq<IconTaskModel>,
    outcomes: Seq<Option<usize>>,
    i: int,
    k: nat,
)
    requires
        0 <= i < k <= tasks.len(),
        asset_of(tasks[i], outcome_at(outcomes, i)) is Some,
    ensures
        assets_upto(tasks, outcomes, k).contains(asset_of(tasks[i], outcome_at(outcomes, i))->0),
    decreases k,
{
    let a = asset_of(tasks[i], outcome_at(outcomes, i))->0;
    let before = assets_upto(tasks, outcomes, (k - 1) as nat);
    let now = assets_upto(tasks, outcomes, k);
    if i == k - 1 {
        assert(now == before.push(a));
        assert(now[now.len() - 1] == a);
    } else {
        lemma_assets_upto_grows(tasks, outcomes, i, (k - 1) as nat);
        let w = choose|w: int| 0 <= w < before.len() && before[w] == a;
        assert(now[w] == a);
    }
}

/// Each size stands alone.
///
/// The asset of a task depends on what is reported for that task and on
/// nothing else: whenever an attempt of the task at position `i` worked, its
/// asset is among the assets, whatever is reported for the other tasks.
pub proof fn lemma_each_size_alone(
    tasks: Seq<IconTaskModel>,
    outcomes: Seq<Option<usize>>,
    i: int,
)
    requires
        0 <= i < tasks.len(),
        asset_of(tasks[i], outcome_at(outcomes, i)) is Some,
    ensures
        assets_of(tasks, outcomes).contains(asset_of(tasks[i], outcome_at(outcomes, i))->0),
{
    lemma_assets_upto_grows(tasks, outcomes, i, tasks.len());
}

/// Every asset of the first `k` tasks is the asset of one of them.
proof fn lemma_assets_upto_origin(
    tasks: Seq<IconTaskModel>,
    outcomes: Seq<Option<usize>>,
    k: nat,
    a: IconAssetModel,
)
    requires
        k <= tasks.len(),
        assets_upto(tasks, outcomes, k).contains(a),
    ensures
        exists|i: int|
            0 <= i < k && #[trigger] asset_of(tasks[i], outcome_at(outcomes, i)) == Some(a),
    decreases k,
{
    let before = assets_upto(tasks, outcomes, (k - 1) as nat);
    let now = assets_upto(tasks, outcomes, k);
    let w = choose|w: int| 0 <= w < now.len() && now[w] == a;
    if k > 0 {
        if w < before.len() {
            assert(before[w] == a);
            lemma_assets_upto_origin(tasks, outcomes, (k - 1) as nat, a);
            let i = choose|i: int|
                0 <= i < k - 1 && #[trigger] asset_of(tasks[i], outcome_at(outcomes, i)) == Some(a);
            assert(asset_of(tasks[i], outcome_at(outcomes, i)) == Some(a));
        } else {
            assert(asset_of(tasks[k - 1], outcome_at(outcomes, k - 1)) == Some(a));
        }
    }
}

/// No asset without success: every asset is the asset of a task of which an
/// attempt worked.
pub proof fn lemma_asset_origin(
    tasks: Seq<IconTaskModel>,
    outcomes: Seq<Option<usize>>,
    a: IconAssetModel,
)
    requires
        assets_of(tasks, outcomes).contains(a),
    ensures
        exists|i: int|
            0 <= i < tasks.len() && #[trigger] asset_of(tasks[i], outcome_at(outcomes, i)) == Some(
                a,
            ),
{
    lemma_assets_upto_origin(tasks, outcomes, tasks.len(), a);
}

/// Whether `file` is among `present`.
pub fn is_present(present: &Vec<String>, file: &str) -> (r: bool)
    ensures
        r == texts_model(present@).contains(file@),
{
    let ghost m = texts_model(present@);
    let mut i: usize = 0;
    while i < present.len()
        invariant
            i <= present@.len(),
            m == texts_model(present@),
            forall|j: int| 0 <= j < i ==> m[j] != file@,
        decreases present@.len() - i,
    {
        if text_eq(present[i].as_str(), file) {
            assert(m[i as int] == file@);
            return true;
        }
        i += 1;
    }
    false
}

/// The file of the icon `icon` in the size `size` of the package's theme.
pub fn sized_icon_file(path: &str, size: u32, icon: &str, ext: &str) -> (r: String)
    ensures
        r@ == sized_file(path@, size as nat, icon@, ext@),
{
    let d = decimal(size);
    let mut r = join2(path, "/share/icons/hicolor/");
    r.append(d.as_str());
    r.append("x");
    r.append(d.as_str());
    r.append("/apps/");
    r.append(icon);
    r.append(ext);
    r
}

/// The file of the scalable icon `icon` of the package's theme.
pub fn scalable_icon_file(path: &str, icon: &str) -> (r: String)
    ensures
        r@ == scalable_file(path@, icon@),
{
    let mut r = join2(path, "/share/icons/hicolor/scalable/apps/");
    r.append(icon);
    r.append(".svg");
    r
}

/// The sizes in which a theme may hold an icon, in ascending order.
pub fn catalog_sizes() -> (r: Vec<u32>)
    ensures
        r@ == catalog(),
{
    let mut r: Vec<u32> = Vec::new();
    r.push(64);
    r.push(72);
    r.push(96);
    r.push(128);
    r.push(192);
    r.push(256);
    r.push(512);
    r.push(1024);
    assert(r@ =~= catalog());
    r
}

/// Adds the attempt `method` on `source` to `attempts` if that file is among
/// `present`.
fn add_if_present(
    attempts: &mut Vec<IconAttempt>,
    present: &Vec<String>,
    method: IconMethod,
    source: String,
)
    ensures
        attempts_model(final(attempts)@) == attempts_model(old(attempts)@) + if_present(
            texts_model(present@),
            method,
            source@,
        ),
{
    if is_present(present, source.as_str()) {
        let a = IconAttempt { method, source };
        proof {
            assert(attempts_model(attempts@.push(a)) =~= attempts_model(attempts@) + seq![a@]);
        }
        attempts.push(a);
    } else {
        assert(attempts_model(attempts@) + Seq::<IconAttemptModel>::empty() =~= attempts_model(
            attempts@,
        ));
    }
}

/// Adds the attempt `method` on the icon file of the smallest size of the
/// catalog that is at least `size` and whose file is among `present`.
fn add_from_catalog(
    attempts: &mut Vec<IconAttempt>,
    path: &str,
    icon: &str,
    size: u32,
    ext: &str,
    present: &Vec<String>,
    method: IconMethod,
)
    ensures
        attempts_model(final(attempts)@) == attempts_model(old(attempts)@) + from_catalog(
            path@,
            icon@,
            size,
            ext@,
            texts_model(present@),
            method,
        ),
{
    let sizes = catalog_sizes();
    let ghost p = usable_size(path@, icon@, size, ext@, texts_model(present@));
    let mut i: usize = 0;
    while i < sizes.len()
        invariant
            i <= sizes@.len(),
            sizes@ == catalog(),
            *attempts == *old(attempts),
            p == usable_size(path@, icon@, size, ext@, texts_model(present@)),
            forall|j: int| 0 <= j < i ==> !p(#[trigger] sizes@[j]),
        decreases sizes@.len() - i,
    {
        let c = sizes[i];
        if c >= size {
            let source = sized_icon_file(path, c, icon, ext);
            if is_present(present, source.as_str()) {
                let a = IconAttempt { method, source };
                proof {
                    lemma_first_where_is(catalog(), p, i as int);
                    assert(attempts_model(attempts@.push(a)) =~= attempts_model(attempts@)
                        + seq![a@]);
                }
                attempts.push(a);
                return ;
            }
        }
        i += 1;
    }
    proof {
        lemma_first_where_is(catalog(), p, i as int);
        assert(attempts_model(attempts@) + Seq::<IconAttemptModel>::empty() =~= attempts_model(
            attempts@,
        ));
    }
}

/// The ways to produce the icon `icon` in the size `size` from the package's
/// theme, in the order in which they are to be tried.
pub fn theme_icon_attempts(path: &str, icon: &str, size: u32, present: &Vec<String>) -> (r: Vec<
    IconAttempt,
>)
    ensures
        attempts_model(r@) == theme_attempts(path@, icon@, size, texts_model(present@)),
{
    let mut r: Vec<IconAttempt> = Vec::new();
    proof {
        assert(attempts_model(r@) =~= Seq::empty());
    }
    add_if_present(&mut r, present, IconMethod::Copy, sized_icon_file(path, size, icon, ".png"));
    add_if_present(
        &mut r,
        present,
        IconMethod::Rasterize,
        sized_icon_file(path, size, icon, ".svg"),
    );
    add_if_present(&mut r, present, IconMethod::Rasterize, scalable_icon_file(path, icon));
    add_from_catalog(&mut r, path, icon, size, ".png", present, IconMethod::Downscale);
    add_from_catalog(&mut r, path, icon, size, ".svg", present, IconMethod::Rasterize);
    proof {
        assert(attempts_model(r@) =~= theme_attempts(path@, icon@, size, texts_model(present@)));
    }
    r
}

/// Every file from which the icon `icon` may be taken. A caller looks which
/// of them exist and hands those to `plan_icons`.
pub fn icon_candidates(path: &str, icon: &str) -> (r: Vec<String>)
    ensures
        texts_model(r@) == candidates(path@, icon@),
{
    let sizes = catalog_sizes();
    let mut bitmaps: Vec<String> = Vec::new();
    let mut drawings: Vec<String> = Vec::new();
    let mut k: usize = 0;
    proof {
        assert(texts_model(bitmaps@) =~= sized_files(path@, icon@, ".png"@, 0));
        assert(texts_model(drawings@) =~= sized_files(path@, icon@, ".svg"@, 0));
    }
    while k < sizes.len()
        invariant
            k <= sizes@.len(),
            sizes@ == catalog(),
            texts_model(bitmaps@) == sized_files(path@, icon@, ".png"@, k as nat),
            texts_model(drawings@) == sized_files(path@, icon@, ".svg"@, k as nat),
        decreases sizes@.len() - k,
    {
        let b = sized_icon_file(path, sizes[k], icon, ".png");
        let d = sized_icon_file(path, sizes[k], icon, ".svg");
        proof {
            assert(texts_model(bitmaps@.push(b)) =~= texts_model(bitmaps@).push(b@));
            assert(texts_model(drawings@.push(d)) =~= texts_model(drawings@).push(d@));
        }
        bitmaps.push(b);
        drawings.push(d);
        k += 1;
    }
    let s = scalable_icon_file(path, icon);
    let ghost before = bitmaps@;
    proof {
        assert(texts_model(drawings@.push(s)) =~= texts_model(drawings@).push(s@));
    }
    drawings.push(s);
    proof {
        assert(texts_model(before + drawings@) =~= texts_model(before) + texts_model(drawings@));
    }
    bitmaps.append(&mut drawings);
    bitmaps
}

/// The name of the icon files.
fn icon_name(asked: &Option<String>, base: &str) -> (r: String)
    ensures
        r@ == icon_name_of(text_option(*asked), base@),
{
    match asked {
        Some(name) => name.clone(),
        None => join2(base, ".png"),
    }
}

/// The task for one size when the icon was fetched from `url`.
fn fetched_icon_task(size: u32, name: &str, url: &str) -> (r: IconTask)
    ensures
        r@ == fetched_task(size, name@, url@),
{
    let mut attempts: Vec<IconAttempt> = Vec::new();
    attempts.push(IconAttempt { method: IconMethod::Rasterize, source: fetch_place(url) });
    let r = IconTask { size, name: name.to_owned(), attempts };
    proof {
        assert(r@.attempts =~= fetched_task(size, name@, url@).attempts);
    }
    r
}

/// What is to be done for the icons of the component made from the document
/// `meta`, for a package installed at `path`. `desktop` is the text of the
/// desktop entry, if it could be read; `present` lists the files that exist
/// in the package.
pub fn plan_icons(
    path: &str,
    meta: &str,
    desktop: Option<&str>,
    settings: &PkgData,
    present: &Vec<String>,
) -> (r: IconPlan)
    ensures
        r@ == planned_icons(
            path@,
            meta@,
            match desktop {
                Some(text) => Some(text@),
                None => None,
            },
            settings@,
            texts_model(present@),
        ),
{
    let mut tasks: Vec<IconTask> = Vec::new();
    match &settings.icon {
        Some(url) => {
            let id = canonical_id(meta);
            let name = icon_name(&settings.outputicon, id.as_str());
            tasks.push(fetched_icon_task(64, name.as_str(), url.as_str()));
            tasks.push(fetched_icon_task(128, name.as_str(), url.as_str()));
            let r = IconPlan { fetch: Some(url.clone()), tasks };
            proof {
                assert(r@.tasks =~= seq![
                    fetched_task(64, name@, url@),
                    fetched_task(128, name@, url@),
                ]);
            }
            r
        },
        None => {
            let icon = match desktop {
                Some(text) => desktop_icon(text),
                None => None,
            };
            match icon {
                Some(icon) => {
                    let name = icon_name(&settings.outputicon, icon.as_str());
                    let large = theme_icon_attempts(path, icon.as_str(), 128, present);
                    let small = theme_icon_attempts(path, icon.as_str(), 64, present);
                    tasks.push(IconTask { size: 128, name: name.clone(), attempts: large });
                    tasks.push(IconTask { size: 64, name, attempts: small });
                    let r = IconPlan { fetch: None, tasks };
                    proof {
                        let m = texts_model(present@);
                        assert(r@.tasks =~= seq![
                            theme_task(path@, icon@, 128, name@, m),
                            theme_task(path@, icon@, 64, name@, m),
                        ]);
                    }
                    r
                },
                None => {
                    let r = IconPlan { fetch: None, tasks };
                    proof {
                        assert(r@.tasks =~= Seq::empty());
                    }
                    r
                },
            }
        },
    }
}

/// What is to be done next for `task`, given the attempt that was tried last
/// and whether it worked. The attempts are tried in their order, and the
/// first that works ends the task.
pub fn icon_step(task: &IconTask, last: Option<(usize, bool)>) -> (r: IconStep)
    ensures
        r == next_step(task@.attempts.len(), last),
        r matches IconStep::Try(i) ==> i < task.attempts@.len(),
{
    let count = task.attempts.len();
    match last {
        None => if count > 0 {
            IconStep::Try(0)
        } else {
            IconStep::Done(None)
        },
        Some((i, worked)) => if worked {
            IconStep::Done(Some(i))
        } else if i < count && i + 1 < count {
            IconStep::Try(i + 1)
        } else {
            IconStep::Done(None)
        },
    }
}

/// The assets of `tasks`, given for each task which of its attempts worked:
/// one asset for each task with a success, in the order of the tasks. A task
/// for which nothing is reported, or an attempt that it does not have, counts
/// as failed.
pub fn icon_assets(tasks: &Vec<IconTask>, outcomes: &Vec<Option<usize>>) -> (r: Vec<IconAsset>)
    ensures
        assets_model(r@) == assets_of(tasks_model(tasks@), outcomes@),
        forall|i: int|
            0 <= i < tasks@.len() && (#[trigger] asset_of(
                tasks_model(tasks@)[i],
                outcome_at(outcomes@, i),
            )) is Some ==> assets_model(r@).contains(
                asset_of(tasks_model(tasks@)[i], outcome_at(outcomes@, i))->0,
            ),
{
    let ghost m = tasks_model(tasks@);
    proof {
        assert forall|i: int|
            0 <= i < tasks@.len() && (#[trigger] asset_of(m[i], outcome_at(outcomes@, i)))
                is Some implies assets_of(m, outcomes@).contains(
            asset_of(m[i], outcome_at(outcomes@, i))->0,
        ) by {
            lemma_each_size_alone(m, outcomes@, i);
        }
    }
    let mut r: Vec<IconAsset> = Vec::new();
    let mut k: usize = 0;
    proof {
        assert(assets_model(r@) =~= assets_upto(m, outcomes@, 0));
    }
    while k < tasks.len()
        invariant
            k <= tasks@.len(),
            m == tasks_model(tasks@),
            assets_model(r@) == assets_upto(m, outcomes@, k as nat),
        decreases tasks@.len() - k,
    {
        let task = &tasks[k];
        if k < outcomes.len() {
            match outcomes[k] {
                Some(i) => {
                    if i < task.attempts.len() {
                        let a = IconAsset {
                            size: task.size,
                            name: task.name.clone(),
                            method: task.attempts[i].method,
                            source: task.attempts[i].source.clone(),
                        };
                        proof {
                            assert(assets_model(r@.push(a)) =~= assets_model(r@).push(a@));
                            assert(asset_of(m[k as int], outcome_at(outcomes@, k as int)) == Some(
                                a@,
                            ));
                        }
                        r.push(a);
                    }
                },
                None => {},
            }
        }
        k += 1;
    }
    r
}

/// The assets of a plan have one of the two sizes and the one name.
///
/// Whatever is reported, an asset that comes of a plan is 64 or 128 pixels
/// wide, and its file has the name that the settings ask for or, without
/// such a name, the name that is derived from the document or from the icon.
pub proof fn lemma_planned_assets(
    path: Seq<char>,
    meta: Seq<char>,
    desktop: Option<Seq<char>>,
    settings: PkgDataModel,
    present: Seq<Seq<char>>,
    outcomes: Seq<Option<usize>>,
    a: IconAssetModel,
)
    requires
        assets_of(planned_icons(path, meta, desktop, settings, present).tasks, outcomes).contains(a),
    ensures
        a.size == 64 || a.size == 128,
        a.name == planned_name(meta, desktop, settings),
{
    let tasks = planned_icons(path, meta, desktop, settings, present).tasks;
    lemma_asset_origin(tasks, outcomes, a);
    let i = choose|i: int|
        0 <= i < tasks.len() && #[trigger] asset_of(tasks[i], outcome_at(outcomes, i)) == Some(a);
    assert(asset_of(tasks[i], outcome_at(outcomes, i)) == Some(a));
}

/// What the number of assets says of a component that wants two icons.
pub fn icon_status(produced: usize) -> (r: IconStatus)
    ensures
        r == status_of(produced as nat),
{
    if produced == 0 {
        IconStatus::Missing
    } else if produced == 1 {
        IconStatus::Partial
    } else {
        IconStatus::Complete
    }
}

} // verus!
