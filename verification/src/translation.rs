//! Regrouping of translated content.
//!
//! Upstream documents mix translations inside one element:
//! `<description><p>Hi</p><p lang="de">Hallo</p></description>`. The format
//! wants one element per language instead. `regroup` turns an element into
//! that sequence of elements, the untranslated one first and the languages
//! after it in ascending order.
//!
//! Every direct child goes into the group of its language, in the order of
//! the document. A child element without `lang`, and a child that is no
//! element (text, a comment), is untranslated. A child keeps everything but
//! its `lang` attribute, which its group carries for it. The element itself
//! is kept too: the untranslated group is the element as it is, with the
//! untranslated children, and the group of a language is the element with
//! that language for its own.
//!
//! Nested content is regrouped first and the parent sees the result: a child
//! that itself has child elements is replaced by its own groups before the
//! children are parted by language.

use crate::sequences::{
    lemma_filter_all, lemma_filter_none, lemma_filter_step, lemma_first_where_is,
};
use crate::text::{
    ascending, insert_key, insert_sorted, lemma_insert_key, lemma_text_lt_irreflexive, text_eq,
    text_lt, texts_model,
};
use crate::tree::{
    attributes_model, clone_element, clone_node, elements_model, lemma_element_view,
    lemma_nodes_model_push, nodes_model, Attribute, AttributeModel, ElementModel, Node, NodeModel,
    XmlElement,
};
use vstd::prelude::*;

verus! {

/// The language of an element: the value of its `lang` attribute, and the
/// empty text, which stands for "untranslated", when it has none.
pub open spec fn language_of(e: ElementModel) -> Seq<char> {
    match e.attribute("lang"@) {
        Some(v) => v,
        None => Seq::empty(),
    }
}

/// The language of a child: that of an element, and "untranslated" for
/// anything else.
pub open spec fn language_of_node(n: NodeModel) -> Seq<char> {
    match n {
        NodeModel::Element(e) => language_of(e),
        _ => Seq::empty(),
    }
}

/// The test "is no `lang` attribute".
pub open spec fn not_language() -> spec_fn(AttributeModel) -> bool {
    |a: AttributeModel| a.name != "lang"@
}

/// An element without its `lang` attribute, all else as it was.
pub open spec fn without_language(e: ElementModel) -> ElementModel {
    ElementModel { attributes: e.attributes.filter(not_language()), ..e }
}

/// The languages of `xs`, each once, in ascending order.
pub open spec fn language_keys(xs: Seq<NodeModel>) -> Seq<Seq<char>>
    decreases xs.len(),
{
    if xs.len() == 0 {
        Seq::empty()
    } else {
        insert_key(language_keys(xs.drop_last()), language_of_node(xs.last()))
    }
}

/// The test "is in the language `k`".
pub open spec fn in_language(k: Seq<char>) -> spec_fn(NodeModel) -> bool {
    |n: NodeModel| language_of_node(n) == k
}

/// What becomes of a child that is put into a group: an element loses its
/// `lang` attribute, anything else stays as it is.
pub open spec fn as_member() -> spec_fn(NodeModel) -> NodeModel {
    |n: NodeModel|
        match n {
            NodeModel::Element(e) => NodeModel::Element(without_language(e)),
            _ => n,
        }
}

/// The children of `xs` in the language `k`, in their order, each as a member.
pub open spec fn group_members(xs: Seq<NodeModel>, k: Seq<char>) -> Seq<NodeModel> {
    xs.filter(in_language(k)).map_values(as_member())
}

/// The attributes of the group of `e` for the language `k`: those of `e` for
/// the untranslated group, and those of `e` with `lang` set to `k`, as the
/// last attribute, for the group of a language.
pub open spec fn group_attributes(e: ElementModel, k: Seq<char>) -> Seq<AttributeModel> {
    if k.len() == 0 {
        e.attributes
    } else {
        without_language(e).attributes.push(AttributeModel { name: "lang"@, value: k })
    }
}

/// The group of `e` for the language `k`: `e` with the attributes of that
/// group, and with the members of that language as its children.
pub open spec fn group(e: ElementModel, xs: Seq<NodeModel>, k: Seq<char>) -> ElementModel {
    ElementModel { attributes: group_attributes(e, k), children: group_members(xs, k), ..e }
}

/// The elements `gs` as child nodes.
pub open spec fn as_nodes(gs: Seq<ElementModel>) -> Seq<NodeModel> {
    gs.map_values(|g: ElementModel| NodeModel::Element(g))
}

/// The first `k` children of `e` as they are parted: each child element that
/// has child elements of its own replaced by its groups, every other child as
/// it is.
pub open spec fn expanded(e: ElementModel, k: nat) -> Seq<NodeModel>
    decreases e, k,
{
    if k == 0 || k > e.children.len() {
        Seq::empty()
    } else {
        let before = expanded(e, (k - 1) as nat);
        match e.children[k - 1] {
            NodeModel::Element(c) => if c.has_element_child() {
                before + as_nodes(regrouped(c))
            } else {
                before.push(NodeModel::Element(c))
            },
            n => before.push(n),
        }
    }
}

/// The elements that take the place of `e`: one per language among its
/// expanded children, in ascending order of language.
pub open spec fn regrouped(e: ElementModel) -> Seq<ElementModel>
    decreases e, e.children.len() + 1,
{
    let xs = expanded(e, e.children.len());
    language_keys(xs).map_values(|k: Seq<char>| group(e, xs, k))
}

/// The languages of `xs` are listed in strictly ascending order, so each
/// stands once; every child's language is listed, and nothing else is.
pub proof fn lemma_language_keys(xs: Seq<NodeModel>)
    ensures
        ascending(language_keys(xs)),
        forall|i: int|
            0 <= i < xs.len() ==> language_keys(xs).contains(language_of_node(#[trigger] xs[i])),
        forall|k: Seq<char>| #[trigger]
            language_keys(xs).contains(k) ==> exists|i: int|
                0 <= i < xs.len() && language_of_node(#[trigger] xs[i]) == k,
    decreases xs.len(),
{
    if xs.len() > 0 {
        let before = xs.drop_last();
        let k = language_of_node(xs.last());
        lemma_language_keys(before);
        lemma_insert_key(language_keys(before), k);
        assert forall|i: int| 0 <= i < xs.len() implies language_keys(xs).contains(
            language_of_node(#[trigger] xs[i]),
        ) by {
            if i < xs.len() - 1 {
                assert(xs[i] == before[i]);
            }
        }
        assert forall|x: Seq<char>| #[trigger] language_keys(xs).contains(x) implies exists|i: int|
            0 <= i < xs.len() && language_of_node(#[trigger] xs[i]) == x by {
            if x == k {
                assert(language_of_node(xs[xs.len() - 1]) == x);
            } else {
                assert(language_keys(before).contains(x));
                let i = choose|i: int|
                    0 <= i < before.len() && language_of_node(#[trigger] before[i]) == x;
                assert(xs[i] == before[i]);
            }
        }
    }
}

/// Where `r` passes exactly what `p` or `q` passes, and these two never pass
/// the same item, what `r` keeps is what `p` keeps together with what `q`
/// keeps, as multisets.
pub proof fn lemma_filter_split(
    xs: Seq<NodeModel>,
    p: spec_fn(NodeModel) -> bool,
    q: spec_fn(NodeModel) -> bool,
    r: spec_fn(NodeModel) -> bool,
)
    requires
        forall|c: NodeModel| #[trigger] r(c) == (p(c) || q(c)),
        forall|c: NodeModel| !(#[trigger] p(c) && q(c)),
    ensures
        xs.filter(r).map_values(as_member()).to_multiset() == xs.filter(p).map_values(
            as_member(),
        ).to_multiset().add(xs.filter(q).map_values(as_member()).to_multiset()),
    decreases xs.len(),
{
    reveal(Seq::filter);
    let f = as_member();
    let none = Seq::<NodeModel>::empty();
    if xs.len() == 0 {
        assert(xs.filter(r).map_values(f) =~= none);
        assert(xs.filter(p).map_values(f) =~= none);
        assert(xs.filter(q).map_values(f) =~= none);
        assert(none.to_multiset() =~= none.to_multiset().add(none.to_multiset())) by {
            vstd::seq_lib::lemma_multiset_commutative(none, none);
            assert(none + none =~= none);
        }
    } else {
        let before = xs.drop_last();
        let c = xs.last();
        lemma_filter_split(before, p, q, r);
        let br = before.filter(r).map_values(f);
        let bp = before.filter(p).map_values(f);
        let bq = before.filter(q).map_values(f);
        if p(c) {
            assert(xs.filter(r).map_values(f) =~= br.push(f(c)));
            assert(xs.filter(p).map_values(f) =~= bp.push(f(c)));
            vstd::seq_lib::to_multiset_build(br, f(c));
            vstd::seq_lib::to_multiset_build(bp, f(c));
            assert(bp.to_multiset().add(bq.to_multiset()).insert(f(c)) =~= bp.to_multiset().insert(
                f(c),
            ).add(bq.to_multiset()));
        } else if q(c) {
            assert(xs.filter(r).map_values(f) =~= br.push(f(c)));
            assert(xs.filter(q).map_values(f) =~= bq.push(f(c)));
            vstd::seq_lib::to_multiset_build(br, f(c));
            vstd::seq_lib::to_multiset_build(bq, f(c));
            assert(bp.to_multiset().add(bq.to_multiset()).insert(f(c)) =~= bp.to_multiset().add(
                bq.to_multiset().insert(f(c)),
            ));
        }
    }
}

/// The members of the groups for `keys`, one group after the other.
pub open spec fn members_of(xs: Seq<NodeModel>, keys: Seq<Seq<char>>) -> Seq<NodeModel> {
    keys.map_values(|k: Seq<char>| group_members(xs, k)).flatten()
}

/// The test "has one of the languages `keys`".
pub open spec fn in_languages(keys: Seq<Seq<char>>) -> spec_fn(NodeModel) -> bool {
    |n: NodeModel| keys.contains(language_of_node(n))
}

/// The groups for a list of distinct languages hold, as a multiset, the
/// children that have one of these languages.
pub proof fn lemma_members_of(xs: Seq<NodeModel>, keys: Seq<Seq<char>>)
    requires
        keys.no_duplicates(),
    ensures
        members_of(xs, keys).to_multiset() == xs.filter(in_languages(keys)).map_values(
            as_member(),
        ).to_multiset(),
    decreases keys.len(),
{
    let g = |k: Seq<char>| group_members(xs, k);
    if keys.len() == 0 {
        assert(keys.map_values(g) =~= Seq::<Seq<NodeModel>>::empty());
        lemma_filter_none(xs, in_languages(keys));
        assert(xs.filter(in_languages(keys)).map_values(as_member()) =~= Seq::empty());
        assert(members_of(xs, keys) =~= Seq::empty());
    } else {
        let before = keys.drop_last();
        let k = keys.last();
        lemma_members_of(xs, before);
        assert(keys.map_values(g) =~= before.map_values(g).push(g(k)));
        before.map_values(g).lemma_flatten_push(g(k));
        vstd::seq_lib::lemma_multiset_commutative(members_of(xs, before), g(k));
        assert forall|c: NodeModel| #[trigger]
            in_languages(keys)(c) == (in_languages(before)(c) || in_language(k)(c)) by {
            let l = language_of_node(c);
            if keys.contains(l) {
                let i = choose|i: int| 0 <= i < keys.len() && keys[i] == l;
                if i < keys.len() - 1 {
                    assert(before[i] == l);
                }
            }
            if before.contains(l) {
                let i = choose|i: int| 0 <= i < before.len() && before[i] == l;
                assert(keys[i] == l);
            }
            if l == k {
                assert(keys[keys.len() - 1] == l);
            }
        }
        assert forall|c: NodeModel| !(#[trigger] in_languages(before)(c) && in_language(k)(
            c,
        )) by {
            let l = language_of_node(c);
            if before.contains(l) && l == k {
                let i = choose|i: int| 0 <= i < before.len() && before[i] == l;
                assert(keys[i] == keys[keys.len() - 1]);
            }
        }
        lemma_filter_split(xs, in_languages(before), in_language(k), in_languages(keys));
    }
}

/// What regrouping keeps.
///
/// Let `xs` be the children of `e` as they are parted (`expanded`). Then
/// `regrouped(e)` has one element per language of `xs`, in strictly ascending
/// order of language, so that the untranslated group, whose language is the
/// empty text, comes first. The untranslated group is `e` as it is, the
/// group of a language is `e` with that language for its own, and each wraps
/// the children of
/// `xs` in that language in the order they have in `xs`: each element without
/// its `lang` attribute and otherwise unchanged, everything else as it is.
/// Taken together the groups hold the children of `xs`, each as often as `xs`
/// does.
pub proof fn lemma_regroup_keeps_children(e: ElementModel)
    ensures
        regrouped(e).len() == language_keys(expanded(e, e.children.len())).len(),
        ascending(language_keys(expanded(e, e.children.len()))),
        forall|j: int|
            0 <= j < regrouped(e).len() ==> (#[trigger] regrouped(e)[j]) == group(
                e,
                expanded(e, e.children.len()),
                language_keys(expanded(e, e.children.len()))[j],
            ),
        forall|i: int|
            0 <= i < expanded(e, e.children.len()).len() ==> language_keys(
                expanded(e, e.children.len()),
            ).contains(language_of_node(#[trigger] expanded(e, e.children.len())[i])),
        regrouped(e).map_values(|g: ElementModel| g.children).flatten().to_multiset() == expanded(
            e,
            e.children.len(),
        ).map_values(as_member()).to_multiset(),
{
    let xs = expanded(e, e.children.len());
    let keys = language_keys(xs);
    lemma_language_keys(xs);
    assert(keys.no_duplicates()) by {
        assert forall|i: int, j: int|
            0 <= i < keys.len() && 0 <= j < keys.len() && i != j implies keys[i] != keys[j] by {
            lemma_text_lt_irreflexive(keys[i]);
            if i < j {
                assert(text_lt(keys[i], keys[j]));
            } else {
                assert(text_lt(keys[j], keys[i]));
            }
        }
    }
    lemma_members_of(xs, keys);
    lemma_filter_all(xs, in_languages(keys));
    assert(regrouped(e).map_values(|g: ElementModel| g.children) =~= keys.map_values(
        |k: Seq<char>| group_members(xs, k),
    ));
}

/// Where no child is an element with child elements, nothing is regrouped
/// below: the children are parted as they are.
pub proof fn lemma_expanded_flat(e: ElementModel, k: nat)
    requires
        k <= e.children.len(),
        forall|i: int|
            0 <= i < e.children.len() ==> match #[trigger] e.children[i] {
                NodeModel::Element(c) => !c.has_element_child(),
                _ => true,
            },
    ensures
        expanded(e, k) == e.children.take(k as int),
    decreases k,
{
    if k > 0 {
        lemma_expanded_flat(e, (k - 1) as nat);
        assert(e.children.take(k as int) =~= e.children.take(k - 1).push(e.children[k - 1]));
    } else {
        assert(e.children.take(0) =~= Seq::empty());
    }
}

/// The element has no `lang` attribute.
pub open spec fn has_no_language(c: ElementModel) -> bool {
    forall|j: int| 0 <= j < c.attributes.len() ==> (#[trigger] c.attributes[j]).name != "lang"@
}

/// `n` may stand in a group: an element has no `lang` and is in regrouped
/// form.
pub open spec fn fits_group(n: NodeModel) -> bool
    decreases n,
{
    match n {
        NodeModel::Element(c) => has_no_language(c) && settled(c),
        _ => true,
    }
}

/// `e` is in regrouped form all the way down: wherever an element has child
/// elements, each of its children may stand in a group.
pub open spec fn settled(e: ElementModel) -> bool
    decreases e,
{
    e.has_element_child() ==> forall|i: int|
        0 <= i < e.children.len() ==> fits_group(#[trigger] e.children[i])
}

/// `g` has the shape of a group: it has children, and each of them may stand
/// in a group.
pub open spec fn is_group(g: ElementModel) -> bool {
    &&& g.children.len() > 0
    &&& forall|i: int| 0 <= i < g.children.len() ==> fits_group(#[trigger] g.children[i])
}

/// A child as it is parted is in regrouped form.
pub open spec fn is_parted(n: NodeModel) -> bool {
    match n {
        NodeModel::Element(c) => settled(c),
        _ => true,
    }
}

/// An element without `lang` has no language, and is itself without its
/// language.
pub proof fn lemma_no_language(c: ElementModel)
    requires
        has_no_language(c),
    ensures
        language_of(c) == Seq::<char>::empty(),
        without_language(c) == c,
{
    let p = |a: AttributeModel| a.name == "lang"@;
    assert forall|j: int| 0 <= j < c.attributes.len() implies !p(#[trigger] c.attributes[j]) by {}
    lemma_first_where_is(c.attributes, p, c.attributes.len() as int);
    lemma_filter_all(c.attributes, not_language());
}

/// What is left of an element without its language has no `lang`.
pub proof fn lemma_without_language(c: ElementModel)
    ensures
        has_no_language(without_language(c)),
{
    let m = without_language(c);
    assert forall|j: int| 0 <= j < m.attributes.len() implies (#[trigger] m.attributes[j]).name
        != "lang"@ by {
        c.attributes.lemma_filter_pred(not_language(), j);
    }
}

/// A child that is parted becomes a member that may stand in a group.
proof fn lemma_member_fits(n: NodeModel)
    requires
        is_parted(n),
    ensures
        fits_group(as_member()(n)),
{
    if let NodeModel::Element(c) = n {
        lemma_without_language(c);
        assert(settled(without_language(c)) == settled(c));
    }
}

/// The children of an element, as they are parted, are in regrouped form.
proof fn lemma_expanded_settled(e: ElementModel, k: nat)
    ensures
        forall|i: int| 0 <= i < expanded(e, k).len() ==> is_parted(#[trigger] expanded(e, k)[i]),
    decreases e, k,
{
    if k == 0 || k > e.children.len() {
    } else {
        let before = expanded(e, (k - 1) as nat);
        lemma_expanded_settled(e, (k - 1) as nat);
        match e.children[k - 1] {
            NodeModel::Element(c) => {
                if c.has_element_child() {
                    lemma_groups_settled(c);
                    assert forall|i: int| 0 <= i < expanded(e, k).len() implies is_parted(
                        #[trigger] expanded(e, k)[i],
                    ) by {
                        if i >= before.len() {
                            let g = regrouped(c)[i - before.len()];
                            assert(expanded(e, k)[i] == NodeModel::Element(g));
                            assert(is_group(g));
                        }
                    }
                } else {
                    assert(settled(c));
                }
            },
            _ => {},
        }
    }
}

/// Every element that regrouping gives has the shape of a group.
pub proof fn lemma_groups_settled(e: ElementModel)
    ensures
        forall|j: int| 0 <= j < regrouped(e).len() ==> is_group(#[trigger] regrouped(e)[j]),
    decreases e, e.children.len() + 1,
{
    let xs = expanded(e, e.children.len());
    let keys = language_keys(xs);
    lemma_expanded_settled(e, e.children.len());
    lemma_language_keys(xs);
    assert forall|j: int| 0 <= j < regrouped(e).len() implies is_group(
        #[trigger] regrouped(e)[j],
    ) by {
        let k = keys[j];
        let g = regrouped(e)[j];
        let kept = xs.filter(in_language(k));
        assert(g == group(e, xs, k));
        assert(keys.contains(k));
        let w = choose|i: int| 0 <= i < xs.len() && language_of_node(#[trigger] xs[i]) == k;
        xs.lemma_filter_contains(in_language(k), w);
        assert forall|i: int| 0 <= i < g.children.len() implies fits_group(
            #[trigger] g.children[i],
        ) by {
            assert(kept.contains(kept[i]));
            xs.lemma_filter_contains_rev(in_language(k), kept[i]);
            let t = choose|t: int| 0 <= t < xs.len() && xs[t] == kept[i];
            assert(is_parted(xs[t]));
            lemma_member_fits(kept[i]);
            assert(g.children[i] == as_member()(kept[i]));
        }
    }
}

/// Children that are all untranslated have one language, the empty one.
proof fn lemma_keys_untranslated(xs: Seq<NodeModel>)
    requires
        xs.len() > 0,
        forall|i: int|
            0 <= i < xs.len() ==> language_of_node(#[trigger] xs[i]) == Seq::<char>::empty(),
    ensures
        language_keys(xs) == seq![Seq::<char>::empty()],
    decreases xs.len(),
{
    let k = Seq::<char>::empty();
    let before = xs.drop_last();
    if before.len() == 0 {
        assert(language_keys(before) =~= Seq::empty());
        assert(insert_key(Seq::empty(), k) =~= seq![k]);
    } else {
        assert forall|i: int| 0 <= i < before.len() implies language_of_node(
            #[trigger] before[i],
        ) == k by {
            assert(before[i] == xs[i]);
        }
        lemma_keys_untranslated(before);
        lemma_text_lt_irreflexive(k);
        lemma_first_where_is(seq![k], |x: Seq<char>| !text_lt(x, k), 0);
    }
}

/// The children of a group are parted as they are: each is its own part.
proof fn lemma_expanded_of_group(g: ElementModel, k: nat)
    requires
        is_group(g),
        k <= g.children.len(),
    ensures
        expanded(g, k) == g.children.take(k as int),
    decreases g, k,
{
    if k > 0 {
        lemma_expanded_of_group(g, (k - 1) as nat);
        assert(fits_group(g.children[k - 1]));
        match g.children[k - 1] {
            NodeModel::Element(c) => {
                if c.has_element_child() {
                    assert(is_group(c)) by {
                        let w = choose|i: int|
                            0 <= i < c.children.len() && #[trigger] c.children[i] is Element;
                    }
                    lemma_regroup_of_group(c);
                    assert(as_nodes(regrouped(c)) =~= seq![NodeModel::Element(c)]);
                }
            },
            _ => {},
        }
        assert(expanded(g, k) =~= g.children.take(k as int));
    } else {
        assert(g.children.take(0) =~= Seq::empty());
    }
}

/// Regrouping an element that has the shape of a group gives that element
/// alone, as it is.
pub proof fn lemma_regroup_of_group(g: ElementModel)
    requires
        is_group(g),
    ensures
        regrouped(g) == seq![g],
    decreases g, g.children.len() + 1,
{
    let xs = expanded(g, g.children.len());
    let k = Seq::<char>::empty();
    lemma_expanded_of_group(g, g.children.len());
    assert(g.children.take(g.children.len() as int) =~= g.children);
    assert forall|i: int| 0 <= i < xs.len() implies language_of_node(#[trigger] xs[i]) == k
        && as_member()(xs[i]) == xs[i] by {
        assert(fits_group(g.children[i]));
        if let NodeModel::Element(c) = xs[i] {
            lemma_no_language(c);
        }
    }
    lemma_keys_untranslated(xs);
    lemma_filter_all(xs, in_language(k));
    assert(group_members(xs, k) =~= g.children);
    assert(group(g, xs, k) == g);
    assert(regrouped(g) =~= seq![g]);
}

/// Regrouping is idempotent.
///
/// Let `g` be one of the elements that regrouping `e` gives. Regrouping `g`
/// gives `g` alone, as it is: the same tag, the same attributes, the same
/// children in the same order.
pub proof fn lemma_regroup_idempotent(e: ElementModel, j: int)
    requires
        0 <= j < regrouped(e).len(),
    ensures
        regrouped(regrouped(e)[j]) == seq![regrouped(e)[j]],
{
    lemma_groups_settled(e);
    lemma_regroup_of_group(regrouped(e)[j]);
}

/// Whether some child of `e` is an element.
pub fn has_element_child(e: &XmlElement) -> (r: bool)
    ensures
        r == e@.has_element_child(),
{
    let mut i: usize = 0;
    while i < e.children.len()
        invariant
            i <= e.children@.len(),
            forall|j: int| 0 <= j < i ==> !(#[trigger] e@.children[j] is Element),
        decreases e.children@.len() - i,
    {
        proof {
            lemma_element_view(*e);
        }
        match &e.children[i] {
            Node::Element(_) => {
                assert(e@.children[i as int] is Element);
                return true;
            },
            _ => {},
        }
        i += 1;
    }
    proof {
        lemma_element_view(*e);
    }
    false
}

/// The language of `e`: its `lang` attribute, or the empty text.
pub fn language(e: &XmlElement) -> (r: String)
    ensures
        r@ == language_of(e@),
{
    match e.attribute("lang") {
        Some(v) => v,
        None => String::new(),
    }
}

/// The language of a child.
pub fn node_language(n: &Node) -> (r: String)
    ensures
        r@ == language_of_node(n@),
{
    match n {
        Node::Element(e) => language(e),
        _ => String::new(),
    }
}

/// A copy of `e` without its `lang` attribute.
pub fn drop_language(e: &XmlElement) -> (r: XmlElement)
    ensures
        r@ == without_language(e@),
{
    let mut r = clone_element(e);
    let ghost m = e@.attributes;
    let ghost p = not_language();
    let mut kept: Vec<Attribute> = Vec::new();
    let mut i: usize = 0;
    proof {
        lemma_element_view(*e);
        reveal(Seq::filter);
        assert(m.take(0).filter(p) =~= Seq::empty());
        assert(attributes_model(kept@) =~= Seq::empty());
    }
    while i < e.attributes.len()
        invariant
            i <= e.attributes@.len(),
            m == attributes_model(e.attributes@),
            p == not_language(),
            attributes_model(kept@) == m.take(i as int).filter(p),
        decreases e.attributes@.len() - i,
    {
        proof {
            lemma_filter_step(m, p, i as int);
        }
        if !text_eq(e.attributes[i].name.as_str(), "lang") {
            let a = Attribute {
                name: e.attributes[i].name.clone(),
                value: e.attributes[i].value.clone(),
            };
            proof {
                assert(attributes_model(kept@.push(a)) =~= attributes_model(kept@).push(a@));
            }
            kept.push(a);
        }
        i += 1;
    }
    proof {
        assert(m.take(i as int) =~= m);
    }
    r.attributes = kept;
    proof {
        lemma_element_view(r);
    }
    r
}

/// A copy of a child as it stands in a group.
pub fn member(n: &Node) -> (r: Node)
    ensures
        r@ == as_member()(n@),
{
    match n {
        Node::Element(e) => Node::Element(drop_language(e)),
        _ => clone_node(n),
    }
}

/// The group of `e` for the language `k` among `xs`.
pub fn make_group(e: &XmlElement, xs: &Vec<Node>, k: &str) -> (r: XmlElement)
    ensures
        r@ == group(e@, nodes_model(xs@), k@),
{
    let ghost m = nodes_model(xs@);
    let ghost p = in_language(k@);
    let ghost f = as_member();
    let mut members: Vec<Node> = Vec::new();
    let mut i: usize = 0;
    proof {
        reveal(Seq::filter);
        assert(m.take(0).filter(p) =~= Seq::empty());
        assert(nodes_model(members@) =~= m.take(0).filter(p).map_values(f));
    }
    while i < xs.len()
        invariant
            i <= xs@.len(),
            m == nodes_model(xs@),
            p == in_language(k@),
            f == as_member(),
            nodes_model(members@) == m.take(i as int).filter(p).map_values(f),
        decreases xs@.len() - i,
    {
        proof {
            lemma_filter_step(m, p, i as int);
        }
        let l = node_language(&xs[i]);
        if text_eq(l.as_str(), k) {
            let c = member(&xs[i]);
            proof {
                let kept = m.take(i as int).filter(p);
                lemma_nodes_model_push(members@, c);
                assert(c@ == f(m[i as int]));
                assert(kept.push(m[i as int]).map_values(f) =~= kept.map_values(f).push(
                    f(m[i as int]),
                ));
            }
            members.push(c);
        }
        i += 1;
    }
    proof {
        assert(m.take(i as int) =~= m);
    }
    let mut r = if k.is_empty() {
        clone_element(e)
    } else {
        let mut r = drop_language(e);
        let a = Attribute { name: "lang".to_owned(), value: k.to_owned() };
        proof {
            lemma_element_view(r);
            assert(attributes_model(r.attributes@.push(a)) =~= attributes_model(
                r.attributes@,
            ).push(a@));
        }
        r.attributes.push(a);
        r
    };
    proof {
        lemma_element_view(r);
        lemma_element_view(*e);
    }
    r.children = members;
    proof {
        lemma_element_view(r);
    }
    r
}

/// The children of `e` as they are parted: each child element that has child
/// elements of its own replaced by its groups, every other child as it is.
pub fn expand(e: &XmlElement) -> (r: Vec<Node>)
    ensures
        nodes_model(r@) == expanded(e@, e@.children.len()),
    decreases *e, 0nat,
{
    let mut xs: Vec<Node> = Vec::new();
    let mut i: usize = 0;
    proof {
        assert(nodes_model(xs@) =~= expanded(e@, 0));
    }
    while i < e.children.len()
        invariant
            i <= e.children@.len(),
            nodes_model(xs@) == expanded(e@, i as nat),
        decreases e.children@.len() - i,
    {
        proof {
            lemma_element_view(*e);
        }
        let nested = match &e.children[i] {
            Node::Element(c) => has_element_child(c),
            _ => false,
        };
        if nested {
            match &e.children[i] {
                Node::Element(c) => {
                    let groups = regroup(c);
                    let ghost before = xs@;
                    let mut j: usize = 0;
                    while j < groups.len()
                        invariant
                            j <= groups@.len(),
                            xs@.len() == before.len() + j,
                            forall|t: int| 0 <= t < before.len() ==> xs@[t] == before[t],
                            forall|t: int|
                                0 <= t < j ==> xs@[before.len() + t]@ == NodeModel::Element(
                                    groups@[t]@,
                                ),
                        decreases groups@.len() - j,
                    {
                        xs.push(Node::Element(clone_element(&groups[j])));
                        j += 1;
                    }
                    proof {
                        assert(nodes_model(xs@) =~= nodes_model(before) + as_nodes(
                            elements_model(groups@),
                        ));
                    }
                },
                _ => {},
            }
        } else {
            let d = clone_node(&e.children[i]);
            proof {
                lemma_nodes_model_push(xs@, d);
            }
            xs.push(d);
        }
        i += 1;
    }
    proof {
        lemma_element_view(*e);
    }
    xs
}

/// The elements that take the place of `e`: one per language among its
/// children, the untranslated group first and the languages after it in
/// ascending order.
pub fn regroup(e: &XmlElement) -> (r: Vec<XmlElement>)
    ensures
        elements_model(r@) == regrouped(e@),
        elements_model(r@).map_values(|g: ElementModel| g.children).flatten().to_multiset()
            == expanded(e@, e@.children.len()).map_values(as_member()).to_multiset(),
    decreases *e, 1nat,
{
    proof {
        lemma_regroup_keeps_children(e@);
    }
    let xs = expand(e);
    let ghost m = nodes_model(xs@);
    let mut keys: Vec<String> = Vec::new();
    let mut i: usize = 0;
    proof {
        assert(texts_model(keys@) =~= language_keys(m.take(0)));
    }
    while i < xs.len()
        invariant
            i <= xs@.len(),
            m == nodes_model(xs@),
            texts_model(keys@) == language_keys(m.take(i as int)),
        decreases xs@.len() - i,
    {
        proof {
            assert(m.take(i + 1).drop_last() =~= m.take(i as int));
        }
        insert_sorted(&mut keys, node_language(&xs[i]));
        i += 1;
    }
    proof {
        assert(m.take(i as int) =~= m);
        lemma_element_view(*e);
    }
    let mut out: Vec<XmlElement> = Vec::new();
    let mut j: usize = 0;
    while j < keys.len()
        invariant
            j <= keys@.len(),
            m == nodes_model(xs@),
            out@.len() == j,
            forall|t: int| 0 <= t < j ==> out@[t]@ == group(e@, m, #[trigger] keys@[t]@),
        decreases keys@.len() - j,
    {
        let g = make_group(e, &xs, keys[j].as_str());
        out.push(g);
        j += 1;
    }
    proof {
        assert(elements_model(out@) =~= texts_model(keys@).map_values(
            |k: Seq<char>| group(e@, m, k),
        ));
    }
    out
}

} // verus!
