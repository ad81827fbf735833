//! Normalization of a metadata document into a component.
//!
//! A document that is paired with a desktop entry becomes a `component` that
//! names its package, its launcher and its icons. A document without a
//! desktop entry only gets the name of its package. In both the description
//! is regrouped by language.

use crate::icons::{assets_model, IconAsset, IconAssetModel};
use crate::names::{file_name, file_name_of};
use crate::sequences::{
    first_where, lemma_filter_all, lemma_filter_none, lemma_filter_step, lemma_first_where,
    lemma_first_where_is,
};
use crate::text::{decimal, decimal_text, text_eq, text_option};
use crate::translation::{as_nodes, regroup, regrouped};
use crate::tree::{
    attributes_model, clone_node, elements_model, lemma_count_positive, lemma_count_with_first,
    lemma_count_with_one,
    lemma_count_without, lemma_element_view, named, node_is_named, nodes_model, text_element_model,
    Attribute, AttributeModel, ElementModel, Node, NodeModel, ScopeModel, XmlElement,
};
use vstd::prelude::*;

verus! {

/// Why a document gives no component.
#[derive(Debug, Clone, Copy, PartialEq, Eq, Structural)]
pub enum Skip {
    /// The text is not a well-formed document.
    Malformed,
    /// The root of the document is not a tag that can become a component.
    NotComponent,
    /// The component could not be written as text.
    Unwritable,
}

/// The element `<icon type="cached" width="W" height="W">name</icon>` for an
/// asset of size W.
pub open spec fn icon_element_of(asset: IconAssetModel) -> ElementModel {
    ElementModel {
        name: "icon"@,
        scope: ScopeModel::none(),
        attributes: seq![
            AttributeModel { name: "type"@, value: "cached"@ },
            AttributeModel { name: "width"@, value: decimal_text(asset.size as nat) },
            AttributeModel { name: "height"@, value: decimal_text(asset.size as nat) },
        ],
        children: text_element_model("icon"@, asset.name).children,
    }
}

/// The element `<launchable type="desktop-id">file</launchable>`.
pub open spec fn launchable_of(file: Seq<char>) -> ElementModel {
    ElementModel {
        name: "launchable"@,
        scope: ScopeModel::none(),
        attributes: seq![AttributeModel { name: "type"@, value: "desktop-id"@ }],
        children: text_element_model("launchable"@, file).children,
    }
}

/// The root of a desktop application as a component: a `component` stays, an
/// `application` becomes a `component` of the type `desktop-application`,
/// anything else is no component.
pub open spec fn as_component(doc: ElementModel) -> Option<ElementModel> {
    if doc.name == "component"@ {
        Some(doc)
    } else if doc.name == "application"@ {
        Some(
            (ElementModel { name: "component"@, ..doc }).with_attribute(
                "type"@,
                "desktop-application"@,
            ),
        )
    } else {
        None
    }
}

/// `e` with one `icon` element for each asset, each put before what was there,
/// so that the asset that comes last stands first.
pub open spec fn with_icons(e: ElementModel, icons: Seq<IconAssetModel>) -> ElementModel
    decreases icons.len(),
{
    if icons.len() == 0 {
        e
    } else {
        with_icons(e, icons.drop_last()).with_first_child(
            NodeModel::Element(icon_element_of(icons.last())),
        )
    }
}

/// `e` with exactly one `launchable`: the first that it has, as it is and
/// where it is, or else one for the desktop entry `file`, put first.
pub open spec fn with_launchable(e: ElementModel, file: Seq<char>) -> ElementModel {
    if e.has_child("launchable"@) {
        e.with_one_child("launchable"@)
    } else {
        e.with_first_child(NodeModel::Element(launchable_of(file)))
    }
}

/// `e` with its `id` elements replaced by one with the text `id`, put first;
/// `e` itself when no id is given.
pub open spec fn with_id(e: ElementModel, id: Option<Seq<char>>) -> ElementModel {
    match id {
        Some(v) => e.without_children("id"@).with_first_child(
            NodeModel::Element(text_element_model("id"@, v)),
        ),
        None => e,
    }
}

/// `e` with its `pkgname` elements replaced by one with the text `pkg`, put
/// first.
pub open spec fn with_package(e: ElementModel, pkg: Seq<char>) -> ElementModel {
    e.without_children("pkgname"@).with_first_child(
        NodeModel::Element(text_element_model("pkgname"@, pkg)),
    )
}

/// `e` with the child at position `i` replaced by its groups; `e` itself where
/// it has no such child or the child is no element.
pub open spec fn with_child_regrouped(e: ElementModel, i: int) -> ElementModel {
    if 0 <= i < e.children.len() && e.children[i] is Element {
        ElementModel {
            children: spliced(e.children, i, as_nodes(regrouped(e.children[i]->Element_0))),
            ..e
        }
    } else {
        e
    }
}

/// `e` with its `description` regrouped by language, in its place; `e` itself
/// unless it has exactly one `description`.
pub open spec fn with_description_regrouped(e: ElementModel) -> ElementModel {
    if e.count_children("description"@) == 1 {
        with_child_regrouped(e, e.child_position("description"@))
    } else {
        e
    }
}

/// The component for a document that is paired with the desktop entry at the
/// path `desktop`, for the package `pkg`, with the id `id` where one is set
/// and with the icons `icons`.
pub open spec fn normalized_desktop(
    doc: ElementModel,
    desktop: Seq<char>,
    pkg: Seq<char>,
    id: Option<Seq<char>>,
    icons: Seq<IconAssetModel>,
) -> Option<ElementModel> {
    match as_component(doc) {
        Some(c) => Some(
            with_description_regrouped(
                with_package(
                    with_id(
                        with_launchable(
                            with_icons(c.without_children("icon"@), icons),
                            file_name_of(desktop),
                        ),
                        id,
                    ),
                    pkg,
                ),
            ),
        ),
        None => None,
    }
}

/// The component for a document without a desktop entry, for the package
/// `pkg`. Only a `component` is accepted.
pub open spec fn normalized_plain(doc: ElementModel, pkg: Seq<char>) -> Option<ElementModel> {
    if doc.name == "component"@ {
        Some(with_description_regrouped(with_package(doc, pkg)))
    } else {
        None
    }
}

/// The tags that normalization handles are five different tags.
pub proof fn lemma_tags_differ()
    ensures
        "icon"@.len() == 4,
        "launchable"@.len() == 10,
        "id"@.len() == 2,
        "pkgname"@.len() == 7,
        "description"@.len() == 11,
        "component"@.len() == 9,
        "application"@.len() == 11,
{
    reveal_strlit("icon");
    reveal_strlit("launchable");
    reveal_strlit("id");
    reveal_strlit("pkgname");
    reveal_strlit("description");
    reveal_strlit("component");
    reveal_strlit("application");
}

/// An attribute that was set is read back.
pub proof fn lemma_with_attribute_reads(e: ElementModel, key: Seq<char>, value: Seq<char>)
    ensures
        e.with_attribute(key, value).attribute(key) == Some(value),
{
    let p = |a: AttributeModel| a.name == key;
    let i = first_where(e.attributes, p);
    lemma_first_where(e.attributes, p);
    let after = e.with_attribute(key, value).attributes;
    assert forall|j: int| 0 <= j < i implies !p(#[trigger] after[j]) by {
        assert(after[j] == e.attributes[j]);
    }
    lemma_first_where_is(after, p, i);
}

/// Icons add to the number of `icon` children and to no other.
pub proof fn lemma_count_with_icons(e: ElementModel, icons: Seq<IconAssetModel>, name: Seq<char>)
    ensures
        with_icons(e, icons).name == e.name,
        with_icons(e, icons).attributes == e.attributes,
        with_icons(e, icons).count_children(name) == e.count_children(name) + if name == "icon"@ {
            icons.len()
        } else {
            0
        },
    decreases icons.len(),
{
    if icons.len() > 0 {
        lemma_count_with_icons(e, icons.drop_last(), name);
        lemma_count_with_first(
            with_icons(e, icons.drop_last()),
            NodeModel::Element(icon_element_of(icons.last())),
            name,
        );
    }
}

/// Afterwards there is one `launchable`, and as many children of any other
/// tag as before.
pub proof fn lemma_count_with_launchable(e: ElementModel, file: Seq<char>, name: Seq<char>)
    ensures
        with_launchable(e, file).count_children(name) == if name == "launchable"@ {
            1
        } else {
            e.count_children(name)
        },
{
    lemma_count_positive(e, "launchable"@);
    lemma_count_with_first(e, NodeModel::Element(launchable_of(file)), name);
    lemma_count_with_one(e, "launchable"@, name);
}

/// Setting the id changes the number of `id` children only.
pub proof fn lemma_count_with_id(e: ElementModel, id: Option<Seq<char>>, name: Seq<char>)
    ensures
        with_id(e, id).count_children(name) == if name == "id"@ && id is Some {
            1
        } else {
            e.count_children(name)
        },
{
    if let Some(v) = id {
        lemma_count_without(e, "id"@, name);
        lemma_count_with_first(
            e.without_children("id"@),
            NodeModel::Element(text_element_model("id"@, v)),
            name,
        );
    }
}

/// After the package was set there is one `pkgname`, and as many children of
/// any other tag as before.
pub proof fn lemma_count_with_package(e: ElementModel, pkg: Seq<char>, name: Seq<char>)
    ensures
        with_package(e, pkg).count_children(name) == if name == "pkgname"@ {
            1
        } else {
            e.count_children(name)
        },
{
    lemma_count_without(e, "pkgname"@, name);
    lemma_count_with_first(
        e.without_children("pkgname"@),
        NodeModel::Element(text_element_model("pkgname"@, pkg)),
        name,
    );
}

/// Regrouping a child changes the number of children with the tag of that
/// child only.
pub proof fn lemma_count_with_child_regrouped(e: ElementModel, i: int, name: Seq<char>)
    requires
        0 <= i < e.children.len(),
        e.children[i] is Element,
        !e.children[i].is_named(name),
    ensures
        with_child_regrouped(e, i).count_children(name) == e.count_children(name),
{
    let p = named(name);
    let s = e.children;
    let c = s[i]->Element_0;
    let gs = as_nodes(regrouped(c));
    assert(s =~= s.take(i) + seq![s[i]] + s.skip(i + 1));
    Seq::filter_distributes_over_add(s.take(i) + seq![s[i]], s.skip(i + 1), p);
    Seq::filter_distributes_over_add(s.take(i), seq![s[i]], p);
    Seq::filter_distributes_over_add(s.take(i) + gs, s.skip(i + 1), p);
    Seq::filter_distributes_over_add(s.take(i), gs, p);
    lemma_filter_none(seq![s[i]], p);
    assert forall|j: int| 0 <= j < gs.len() implies !p(#[trigger] gs[j]) by {
        assert(regrouped(c)[j].name == c.name);
    }
    lemma_filter_none(gs, p);
}

/// Regrouping the description changes the number of `description` children
/// only.
pub proof fn lemma_count_with_description(e: ElementModel, name: Seq<char>)
    requires
        name != "description"@,
    ensures
        with_description_regrouped(e).name == e.name,
        with_description_regrouped(e).attributes == e.attributes,
        with_description_regrouped(e).count_children(name) == e.count_children(name),
{
    if e.count_children("description"@) == 1 {
        lemma_count_positive(e, "description"@);
        lemma_first_where(e.children, named("description"@));
        lemma_count_with_child_regrouped(e, e.child_position("description"@), name);
    }
}

/// `s` with the item at position `i` replaced by the items `mid`.
pub open spec fn spliced(s: Seq<NodeModel>, i: int, mid: Seq<NodeModel>) -> Seq<NodeModel> {
    s.take(i) + mid + s.skip(i + 1)
}

/// What stands before and behind the items that were put in.
proof fn lemma_spliced_parts(s: Seq<NodeModel>, i: int, mid: Seq<NodeModel>)
    requires
        0 <= i < s.len(),
    ensures
        spliced(s, i, mid).take(i) == s.take(i),
        spliced(s, i, mid).skip(i + mid.len()) == s.skip(i + 1),
        forall|j: int| 0 <= j < mid.len() ==> spliced(s, i, mid)[i + j] == mid[j],
        spliced(s, i, seq![s[i]]) == s,
{
    assert(spliced(s, i, mid).take(i) =~= s.take(i));
    assert(spliced(s, i, mid).skip(i + mid.len()) =~= s.skip(i + 1));
    assert(spliced(s, i, seq![s[i]]) =~= s);
}

/// How many items with a tag there are after items were put in the place of
/// one.
proof fn lemma_spliced_count(s: Seq<NodeModel>, i: int, mid: Seq<NodeModel>, tag: Seq<char>)
    requires
        0 <= i < s.len(),
    ensures
        spliced(s, i, mid).filter(named(tag)).len() == s.filter(named(tag)).len() - (if s[i].is_named(
            tag,
        ) {
            1int
        } else {
            0int
        }) + mid.filter(named(tag)).len(),
{
    let p = named(tag);
    lemma_spliced_parts(s, i, mid);
    Seq::filter_distributes_over_add(s.take(i) + seq![s[i]], s.skip(i + 1), p);
    Seq::filter_distributes_over_add(s.take(i), seq![s[i]], p);
    Seq::filter_distributes_over_add(s.take(i) + mid, s.skip(i + 1), p);
    Seq::filter_distributes_over_add(s.take(i), mid, p);
    if s[i].is_named(tag) {
        lemma_filter_all(seq![s[i]], p);
    } else {
        lemma_filter_none(seq![s[i]], p);
    }
}

/// Regrouping the description a second time changes nothing.
///
/// After the description was regrouped the element has one `description` for
/// each language. Several are left alone, and so is none. A single one is
/// regrouped again and comes out as it is.
pub proof fn lemma_description_settles(e: ElementModel)
    ensures
        with_description_regrouped(with_description_regrouped(e)) == with_description_regrouped(e),
{
    let tag = "description"@;
    let p = named(tag);
    if e.count_children(tag) == 1 {
        lemma_count_positive(e, tag);
        lemma_first_where(e.children, p);
        let i = e.child_position(tag);
        let s = e.children;
        let d = s[i]->Element_0;
        let gs = regrouped(d);
        let mid = as_nodes(gs);
        let after = with_description_regrouped(e);
        assert(after.children == spliced(s, i, mid));
        assert forall|j: int| 0 <= j < mid.len() implies p(#[trigger] mid[j]) by {
            assert(gs[j].name == d.name);
        }
        lemma_filter_all(mid, p);
        lemma_spliced_count(s, i, mid, tag);
        assert(after.count_children(tag) == gs.len());
        if gs.len() == 1 {
            assert(gs =~= seq![gs[0]]);
            lemma_settled_group_stays(s, i, gs[0], d);
        }
    }
}

/// Where the one `description` was replaced by a single group, regrouping
/// that group in its place gives the same children.
proof fn lemma_settled_group_stays(s: Seq<NodeModel>, i: int, g: ElementModel, d: ElementModel)
    requires
        0 <= i < s.len(),
        s[i] == NodeModel::Element(d),
        first_where(s, named("description"@)) == i,
        d.name == "description"@,
        regrouped(d) == seq![g],
    ensures
        first_where(spliced(s, i, seq![NodeModel::Element(g)]), named("description"@)) == i,
        spliced(
            spliced(s, i, seq![NodeModel::Element(g)]),
            i,
            as_nodes(regrouped(g)),
        ) == spliced(s, i, seq![NodeModel::Element(g)]),
        as_nodes(regrouped(d)) == seq![NodeModel::Element(g)],
{
    let p = named("description"@);
    let one = seq![NodeModel::Element(g)];
    let after = spliced(s, i, one);
    lemma_first_where(s, p);
    lemma_spliced_parts(s, i, one);
    assert(regrouped(d).len() == 1);
    assert(regrouped(d)[0] == g);
    assert(regrouped(d)[0].name == d.name);
    assert forall|j: int| 0 <= j < i implies !p(#[trigger] after[j]) by {
        assert(after[j] == after.take(i)[j]);
        assert(s.take(i)[j] == s[j]);
    }
    assert(after[i + 0] == one[0]);
    lemma_first_where_is(after, p, i);
    crate::translation::lemma_regroup_idempotent(d, 0);
    assert(as_nodes(regrouped(g)) =~= one);
    assert(as_nodes(regrouped(d)) =~= one);
    lemma_spliced_parts(after, i, one);
}

/// The shape of a component that is made for a desktop entry.
///
/// Whatever the document holds, if its root is `component` or `application`
/// the result is a `component` with exactly one `pkgname`, with one `icon` for
/// each asset and no other, and with exactly one `launchable`: the first that
/// the document had or, if it had none, a new one. A document whose root is
/// `application` gets the type `desktop-application`; the attributes of a
/// `component` stay as they are.
pub proof fn lemma_desktop_component_shape(
    doc: ElementModel,
    desktop: Seq<char>,
    pkg: Seq<char>,
    id: Option<Seq<char>>,
    icons: Seq<IconAssetModel>,
)
    requires
        doc.name == "component"@ || doc.name == "application"@,
    ensures
        normalized_desktop(doc, desktop, pkg, id, icons) is Some,
        normalized_desktop(doc, desktop, pkg, id, icons)->0.name == "component"@,
        normalized_desktop(doc, desktop, pkg, id, icons)->0.count_children("pkgname"@) == 1,
        normalized_desktop(doc, desktop, pkg, id, icons)->0.count_children("icon"@) == icons.len(),
        normalized_desktop(doc, desktop, pkg, id, icons)->0.count_children("launchable"@) == 1,
        doc.name == "application"@ ==> normalized_desktop(
            doc,
            desktop,
            pkg,
            id,
            icons,
        )->0.attribute("type"@) == Some("desktop-application"@),
        doc.name == "component"@ ==> normalized_desktop(doc, desktop, pkg, id, icons)->0.attributes
            == doc.attributes,
{
    lemma_tags_differ();
    let c = as_component(doc)->0;
    if doc.name == "application"@ {
        lemma_with_attribute_reads(
            ElementModel { name: "component"@, ..doc },
            "type"@,
            "desktop-application"@,
        );
    }
    assert(c.children == doc.children);
    let bare = c.without_children("icon"@);
    let drawn = with_icons(bare, icons);
    let launched = with_launchable(drawn, file_name_of(desktop));
    let named_ = with_id(launched, id);
    let packed = with_package(named_, pkg);
    let l = "launchable"@;
    let i = "icon"@;
    let p = "pkgname"@;
    lemma_count_without(c, i, i);
    lemma_count_without(c, i, l);
    lemma_count_with_icons(bare, icons, i);
    lemma_count_with_icons(bare, icons, l);
    lemma_count_positive(c, l);
    lemma_count_positive(drawn, l);
    lemma_count_with_launchable(drawn, file_name_of(desktop), i);
    lemma_count_with_launchable(drawn, file_name_of(desktop), l);
    lemma_count_with_id(launched, id, i);
    lemma_count_with_id(launched, id, l);
    lemma_count_with_package(named_, pkg, i);
    lemma_count_with_package(named_, pkg, l);
    lemma_count_with_package(named_, pkg, p);
    lemma_count_with_description(packed, i);
    lemma_count_with_description(packed, l);
    lemma_count_with_description(packed, p);
}

/// The shape of a component that is made without a desktop entry: a
/// `component` with exactly one `pkgname`, and with no `icon` or `launchable`
/// that the document did not have.
pub proof fn lemma_plain_component_shape(doc: ElementModel, pkg: Seq<char>)
    requires
        doc.name == "component"@,
    ensures
        normalized_plain(doc, pkg) is Some,
        normalized_plain(doc, pkg)->0.name == "component"@,
        normalized_plain(doc, pkg)->0.attributes == doc.attributes,
        normalized_plain(doc, pkg)->0.count_children("pkgname"@) == 1,
        normalized_plain(doc, pkg)->0.count_children("icon"@) == doc.count_children("icon"@),
        normalized_plain(doc, pkg)->0.count_children("launchable"@) == doc.count_children(
            "launchable"@,
        ),
{
    lemma_tags_differ();
    let packed = with_package(doc, pkg);
    lemma_count_with_package(doc, pkg, "icon"@);
    lemma_count_with_package(doc, pkg, "launchable"@);
    lemma_count_with_package(doc, pkg, "pkgname"@);
    lemma_count_with_description(packed, "icon"@);
    lemma_count_with_description(packed, "launchable"@);
    lemma_count_with_description(packed, "pkgname"@);
}

/// The `icon` element for an asset.
pub fn icon_element(asset: &IconAsset) -> (r: XmlElement)
    ensures
        r@ == icon_element_of(asset@),
{
    let mut r = XmlElement::with_text("icon", asset.name.as_str());
    let d = decimal(asset.size);
    proof {
        lemma_element_view(r);
        assert(attributes_model(r.attributes@).len() == 0);
    }
    r.attributes.push(Attribute { name: "type".to_owned(), value: "cached".to_owned() });
    r.attributes.push(Attribute { name: "width".to_owned(), value: d.clone() });
    r.attributes.push(Attribute { name: "height".to_owned(), value: d });
    proof {
        lemma_element_view(r);
        let want = icon_element_of(asset@).attributes;
        assert(r.attributes@.len() == 3);
        assert(r.attributes@[0]@ == want[0]);
        assert(r.attributes@[1]@ == want[1]);
        assert(r.attributes@[2]@ == want[2]);
        assert(r@.attributes =~= want);
    }
    r
}

/// The `launchable` element for the desktop entry `file`.
pub fn launchable_element(file: &str) -> (r: XmlElement)
    ensures
        r@ == launchable_of(file@),
{
    let mut r = XmlElement::with_text("launchable", file);
    proof {
        lemma_element_view(r);
    }
    r.attributes.push(Attribute { name: "type".to_owned(), value: "desktop-id".to_owned() });
    proof {
        lemma_element_view(r);
        assert(r@.attributes =~= launchable_of(file@).attributes);
    }
    r
}

/// How many children of `e` are elements with the tag `name`.
pub fn count_children(e: &XmlElement, name: &str) -> (r: usize)
    ensures
        r == e@.count_children(name@),
{
    let ghost p = named(name@);
    let ghost m = e@.children;
    let mut count: usize = 0;
    let mut i: usize = 0;
    proof {
        lemma_element_view(*e);
        reveal(Seq::filter);
        assert(m.take(0).filter(p) =~= Seq::empty());
    }
    while i < e.children.len()
        invariant
            i <= e.children@.len(),
            m == nodes_model(e.children@),
            p == named(name@),
            count == m.take(i as int).filter(p).len(),
            count <= i,
        decreases e.children@.len() - i,
    {
        proof {
            lemma_filter_step(m, p, i as int);
        }
        if node_is_named(&e.children[i], name) {
            count += 1;
        }
        i += 1;
    }
    proof {
        assert(m.take(i as int) =~= m);
    }
    count
}

/// Replaces the child at position `i` by its groups, in its place. Nothing
/// changes where there is no such child or the child is no element.
pub fn fixtranslation(e: &mut XmlElement, i: usize)
    ensures
        final(e)@ == with_child_regrouped(old(e)@, i as int),
{
    proof {
        lemma_element_view(*e);
    }
    if i >= e.children.len() {
        return ;
    }
    match &e.children[i] {
        Node::Element(_) => {},
        _ => {
            return ;
        },
    }
    let ghost m = e@.children;
    let mut children: Vec<Node> = Vec::new();
    let mut j: usize = 0;
    while j < i
        invariant
            j <= i < e.children@.len(),
            *e == *old(e),
            m == nodes_model(e.children@),
            children@.len() == j,
            forall|t: int| 0 <= t < j ==> children@[t]@ == m[t],
        decreases i - j,
    {
        children.push(clone_node(&e.children[j]));
        j += 1;
    }
    let groups = match &e.children[i] {
        Node::Element(d) => regroup(d),
        _ => Vec::new(),
    };
    let ghost gs = regrouped(m[i as int]->Element_0);
    assert(elements_model(groups@) == gs);
    let mut g: usize = 0;
    while g < groups.len()
        invariant
            g <= groups@.len(),
            *e == *old(e),
            m == nodes_model(e.children@),
            i < e.children@.len(),
            gs == elements_model(groups@),
            children@.len() == i + g,
            forall|t: int| 0 <= t < i ==> children@[t]@ == m[t],
            forall|t: int| 0 <= t < g ==> children@[i + t]@ == NodeModel::Element(gs[t]),
        decreases groups@.len() - g,
    {
        let c = crate::tree::clone_element(&groups[g]);
        children.push(Node::Element(c));
        g += 1;
    }
    let n = e.children.len();
    let mut k: usize = i + 1;
    let ghost base = i + groups@.len();
    while k < n
        invariant
            i < k <= e.children@.len(),
            n == e.children@.len(),
            *e == *old(e),
            m == nodes_model(e.children@),
            gs == elements_model(groups@),
            base == i + gs.len(),
            children@.len() == base + (k - i - 1),
            forall|t: int| 0 <= t < i ==> children@[t]@ == m[t],
            forall|t: int| 0 <= t < gs.len() ==> children@[i + t]@ == NodeModel::Element(gs[t]),
            forall|t: int| i + 1 <= t < k ==> children@[base + (t - i - 1)]@ == m[t],
        decreases e.children@.len() - k,
    {
        children.push(clone_node(&e.children[k]));
        k += 1;
    }
    e.children = children;
    proof {
        lemma_element_view(*e);
        assert(e@.children =~= with_child_regrouped(old(e)@, i as int).children);
    }
}

/// Regroups the `description` of `e`, if `e` has exactly one.
pub fn regroup_description(e: &mut XmlElement)
    ensures
        final(e)@ == with_description_regrouped(old(e)@),
{
    if count_children(e, "description") == 1 {
        let i = e.child_position("description");
        proof {
            let p = named("description"@);
            lemma_first_where(e@.children, p);
            if e@.child_position("description"@) >= e@.children.len() {
                lemma_filter_none(e@.children, p);
            }
        }
        fixtranslation(e, i);
    }
}

/// Puts the `pkgname` of the package `pkg` in the place of any that `e` has.
pub fn set_package(e: &mut XmlElement, pkg: &str)
    ensures
        final(e)@ == with_package(old(e)@, pkg@),
{
    e.remove_children("pkgname");
    e.insert_first(Node::Element(XmlElement::with_text("pkgname", pkg)));
}

/// The component for a document that is paired with the desktop entry at the
/// path `desktop`.
pub fn normalize_desktop(
    doc: XmlElement,
    desktop: &str,
    pkg: &str,
    id: &Option<String>,
    icons: &Vec<IconAsset>,
) -> (r: Result<XmlElement, Skip>)
    ensures
        match r {
            Ok(c) => normalized_desktop(doc@, desktop@, pkg@, text_option(*id), assets_model(icons@))
                == Some(c@),
            Err(why) => why == Skip::NotComponent && normalized_desktop(
                doc@,
                desktop@,
                pkg@,
                text_option(*id),
                assets_model(icons@),
            ) is None,
        },
        r is Ok <==> doc@.name == "component"@ || doc@.name == "application"@,
        r matches Ok(c) ==> c@.name == "component"@ && c@.count_children("pkgname"@) == 1
            && c@.count_children("launchable"@) == 1 && (doc@.name == "application"@
            ==> c@.attribute("type"@) == Some("desktop-application"@)),
{
    let mut e = doc;
    proof {
        lemma_element_view(e);
        if doc@.name == "component"@ || doc@.name == "application"@ {
            lemma_desktop_component_shape(
                doc@,
                desktop@,
                pkg@,
                text_option(*id),
                assets_model(icons@),
            );
        }
    }
    if text_eq(e.name.as_str(), "component") {
    } else if text_eq(e.name.as_str(), "application") {
        e.name = "component".to_owned();
        proof {
            lemma_element_view(e);
            assert(e@ == (ElementModel { name: "component"@, ..doc@ }));
        }
        e.set_attribute("type", "desktop-application");
    } else {
        return Err(Skip::NotComponent);
    }
    let ghost c = e@;
    assert(as_component(doc@) == Some(c));
    e.remove_children("icon");
    let ghost bare = e@;
    let ghost im = assets_model(icons@);
    let mut i: usize = 0;
    proof {
        assert(im.take(0) =~= Seq::empty());
    }
    while i < icons.len()
        invariant
            i <= icons@.len(),
            im == assets_model(icons@),
            e@ == with_icons(bare, im.take(i as int)),
        decreases icons@.len() - i,
    {
        proof {
            assert(im.take(i + 1).drop_last() =~= im.take(i as int));
        }
        e.insert_first(Node::Element(icon_element(&icons[i])));
        i += 1;
    }
    proof {
        assert(im.take(i as int) =~= im);
    }
    if e.has_child("launchable") {
        e.keep_first_child("launchable");
    } else {
        let file = file_name(desktop);
        e.insert_first(Node::Element(launchable_element(file.as_str())));
    }
    match id {
        Some(v) => {
            e.remove_children("id");
            e.insert_first(Node::Element(XmlElement::with_text("id", v.as_str())));
        },
        None => {},
    }
    set_package(&mut e, pkg);
    regroup_description(&mut e);
    Ok(e)
}

/// The component for a document without a desktop entry.
pub fn normalize_plain(doc: XmlElement, pkg: &str) -> (r: Result<XmlElement, Skip>)
    ensures
        match r {
            Ok(c) => normalized_plain(doc@, pkg@) == Some(c@),
            Err(why) => why == Skip::NotComponent && normalized_plain(doc@, pkg@) is None,
        },
        r is Ok <==> doc@.name == "component"@,
        r matches Ok(c) ==> c@.name == "component"@ && c@.count_children("pkgname"@) == 1
            && c@.count_children("launchable"@) == doc@.count_children("launchable"@)
            && c@.count_children("icon"@) == doc@.count_children("icon"@),
{
    let mut e = doc;
    proof {
        lemma_element_view(e);
        if doc@.name == "component"@ {
            lemma_plain_component_shape(doc@, pkg@);
        }
    }
    if !text_eq(e.name.as_str(), "component") {
        return Err(Skip::NotComponent);
    }
    set_package(&mut e, pkg);
    regroup_description(&mut e);
    Ok(e)
}

} // verus!
