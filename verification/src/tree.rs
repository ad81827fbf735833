//! An in-memory XML element tree together with its mathematical model.
//!
//! Executable values (`XmlElement`, `Node`, `Attribute`) own strings and vectors;
//! their views (`ElementModel`, `NodeModel`, `AttributeModel`) are the same
//! trees over sequences of characters. Every contract in this crate speaks of
//! the views.

use crate::sequences::{
    first_where, lemma_filter_all, lemma_filter_apart, lemma_filter_none, lemma_filter_step,
    lemma_filter_within, lemma_first_where, lemma_first_where_is,
};
use crate::text::{clone_text_option, text_eq, text_option};
use vstd::prelude::*;

verus! {

/// One `name="value"` pair on an element.
#[derive(Debug)]
pub struct Attribute {
    pub name: String,
    pub value: String,
}

/// A child of an element.
#[derive(Debug)]
pub enum Node {
    Element(XmlElement),
    Text(String),
    Comment(String),
    CData(String),
    Instruction(String, Option<String>),
}

/// What an element says of namespaces: the prefix and the namespace of its
/// tag, and the namespaces that it declares, each as a prefix with its
/// address.
#[derive(Debug)]
pub struct Scope {
    pub prefix: Option<String>,
    pub namespace: Option<String>,
    pub declared: Option<Vec<Attribute>>,
}

/// An XML element: a tag name, its attributes in document order and its children.
#[derive(Debug)]
pub struct XmlElement {
    pub name: String,
    pub scope: Scope,
    pub attributes: Vec<Attribute>,
    pub children: Vec<Node>,
}

/// The view of an `Attribute`.
pub struct AttributeModel {
    pub name: Seq<char>,
    pub value: Seq<char>,
}

/// The view of a `Node`.
pub enum NodeModel {
    Element(ElementModel),
    Text(Seq<char>),
    Comment(Seq<char>),
    CData(Seq<char>),
    Instruction(Seq<char>, Option<Seq<char>>),
}

/// The view of a `Scope`.
pub struct ScopeModel {
    pub prefix: Option<Seq<char>>,
    pub namespace: Option<Seq<char>>,
    pub declared: Option<Seq<AttributeModel>>,
}

/// The view of an `XmlElement`.
pub struct ElementModel {
    pub name: Seq<char>,
    pub scope: ScopeModel,
    pub attributes: Seq<AttributeModel>,
    pub children: Seq<NodeModel>,
}

impl View for Attribute {
    type V = AttributeModel;

    open spec fn view(&self) -> AttributeModel {
        AttributeModel { name: self.name@, value: self.value@ }
    }
}

/// The views of the namespaces that an element declares.
pub open spec fn declared_model(o: Option<Vec<Attribute>>) -> Option<Seq<AttributeModel>> {
    match o {
        Some(v) => Some(attributes_model(v@)),
        None => None,
    }
}

impl View for Scope {
    type V = ScopeModel;

    open spec fn view(&self) -> ScopeModel {
        ScopeModel {
            prefix: text_option(self.prefix),
            namespace: text_option(self.namespace),
            declared: declared_model(self.declared),
        }
    }
}

impl ScopeModel {
    /// No prefix, no namespace, nothing declared.
    pub open spec fn none() -> ScopeModel {
        ScopeModel { prefix: None, namespace: None, declared: None }
    }
}

/// The view of a node.
pub open spec fn node_model(n: Node) -> NodeModel
    decreases n,
{
    match n {
        Node::Element(e) => NodeModel::Element(element_model(e)),
        Node::Text(s) => NodeModel::Text(s@),
        Node::Comment(s) => NodeModel::Comment(s@),
        Node::CData(s) => NodeModel::CData(s@),
        Node::Instruction(t, d) => NodeModel::Instruction(
            t@,
            match d {
                Some(s) => Some(s@),
                None => None,
            },
        ),
    }
}

/// The view of an element.
pub open spec fn element_model(e: XmlElement) -> ElementModel
    decreases e,
{
    ElementModel {
        name: e.name@,
        scope: e.scope@,
        attributes: attributes_model(e.attributes@),
        children: Seq::new(
            e.children@.len(),
            |i: int|
                if 0 <= i < e.children@.len() {
                    node_model(e.children@[i])
                } else {
                    NodeModel::Text(Seq::empty())
                },
        ),
    }
}

impl View for Node {
    type V = NodeModel;

    open spec fn view(&self) -> NodeModel {
        node_model(*self)
    }
}

impl View for XmlElement {
    type V = ElementModel;

    open spec fn view(&self) -> ElementModel {
        element_model(*self)
    }
}

/// The views of a sequence of attributes.
pub open spec fn attributes_model(s: Seq<Attribute>) -> Seq<AttributeModel> {
    s.map_values(|a: Attribute| a@)
}

/// The views of a sequence of nodes.
pub open spec fn nodes_model(s: Seq<Node>) -> Seq<NodeModel> {
    s.map_values(|n: Node| n@)
}

/// The views of a sequence of elements.
pub open spec fn elements_model(s: Seq<XmlElement>) -> Seq<ElementModel> {
    s.map_values(|e: XmlElement| e@)
}

/// The view of an element is made of the views of its parts.
pub proof fn lemma_element_view(e: XmlElement)
    ensures
        e@.name == e.name@,
        e@.scope == e.scope@,
        e@.attributes == attributes_model(e.attributes@),
        e@.children == nodes_model(e.children@),
{
    assert(e@.children =~= nodes_model(e.children@));
}

impl NodeModel {
    /// This node is an element with the tag `name`.
    pub open spec fn is_named(self, name: Seq<char>) -> bool {
        self matches NodeModel::Element(e) && e.name == name
    }
}

impl ElementModel {
    /// The position of the first attribute called `key`, or the number of
    /// attributes when there is none.
    pub open spec fn attribute_position(self, key: Seq<char>) -> int {
        first_where(self.attributes, |a: AttributeModel| a.name == key)
    }

    /// The value of the first attribute called `key`.
    pub open spec fn attribute(self, key: Seq<char>) -> Option<Seq<char>> {
        let i = self.attribute_position(key);
        if i < self.attributes.len() {
            Some(self.attributes[i].value)
        } else {
            None
        }
    }

    /// This element with `key` set to `value`: an attribute of that name keeps
    /// its place and gets the new value, otherwise the pair is added last.
    pub open spec fn with_attribute(self, key: Seq<char>, value: Seq<char>) -> ElementModel {
        let i = self.attribute_position(key);
        let pair = AttributeModel { name: key, value };
        ElementModel {
            attributes: if i < self.attributes.len() {
                self.attributes.update(i, pair)
            } else {
                self.attributes.push(pair)
            },
            ..self
        }
    }

    /// The position of the first child element with the tag `name`, or the
    /// number of children when there is none.
    pub open spec fn child_position(self, name: Seq<char>) -> int {
        first_where(self.children, named(name))
    }

    /// Some child is an element with the tag `name`.
    pub open spec fn has_child(self, name: Seq<char>) -> bool {
        self.child_position(name) < self.children.len()
    }

    /// How many children are elements with the tag `name`.
    pub open spec fn count_children(self, name: Seq<char>) -> nat {
        self.children.filter(named(name)).len()
    }

    /// This element without its child elements that have the tag `name`.
    pub open spec fn without_children(self, name: Seq<char>) -> ElementModel {
        ElementModel { children: self.children.filter(not_named(name)), ..self }
    }

    /// This element with only the first of its child elements that have the
    /// tag `name`: the first stays where it is, the others are removed.
    pub open spec fn with_one_child(self, name: Seq<char>) -> ElementModel {
        let i = self.child_position(name);
        if i < self.children.len() {
            ElementModel {
                children: self.children.take(i + 1) + self.children.skip(i + 1).filter(
                    not_named(name),
                ),
                ..self
            }
        } else {
            self
        }
    }

    /// This element with `node` put before its children.
    pub open spec fn with_first_child(self, node: NodeModel) -> ElementModel {
        ElementModel { children: seq![node] + self.children, ..self }
    }

    /// Some child is an element.
    pub open spec fn has_element_child(self) -> bool {
        exists|i: int| 0 <= i < self.children.len() && #[trigger] self.children[i] is Element
    }
}

/// The element `<name>text</name>`; an empty `text` gives an element without
/// children.
pub open spec fn text_element_model(name: Seq<char>, text: Seq<char>) -> ElementModel {
    ElementModel {
        name,
        scope: ScopeModel::none(),
        attributes: Seq::empty(),
        children: if text.len() == 0 {
            Seq::empty()
        } else {
            seq![NodeModel::Text(text)]
        },
    }
}

/// A copy of a list of attributes.
pub fn clone_attributes(v: &Vec<Attribute>) -> (r: Vec<Attribute>)
    ensures
        attributes_model(r@) == attributes_model(v@),
{
    let mut r: Vec<Attribute> = Vec::new();
    let mut i: usize = 0;
    while i < v.len()
        invariant
            i <= v@.len(),
            r@.len() == i,
            forall|k: int| 0 <= k < i ==> r@[k]@ == v@[k]@,
        decreases v@.len() - i,
    {
        r.push(Attribute { name: v[i].name.clone(), value: v[i].value.clone() });
        i += 1;
    }
    proof {
        assert(attributes_model(r@) =~= attributes_model(v@));
    }
    r
}

/// A copy of what an element says of namespaces.
pub fn clone_scope(s: &Scope) -> (r: Scope)
    ensures
        r@ == s@,
{
    Scope {
        prefix: clone_text_option(&s.prefix),
        namespace: clone_text_option(&s.namespace),
        declared: match &s.declared {
            Some(v) => Some(clone_attributes(v)),
            None => None,
        },
    }
}

impl Scope {
    /// No prefix, no namespace, nothing declared.
    pub fn none() -> (r: Scope)
        ensures
            r@ == ScopeModel::none(),
    {
        Scope { prefix: None, namespace: None, declared: None }
    }
}

/// A copy of a node.
pub fn clone_node(n: &Node) -> (r: Node)
    ensures
        r@ == n@,
    decreases *n,
{
    match n {
        Node::Element(e) => Node::Element(clone_element(e)),
        Node::Text(s) => Node::Text(s.clone()),
        Node::Comment(s) => Node::Comment(s.clone()),
        Node::CData(s) => Node::CData(s.clone()),
        Node::Instruction(t, d) => Node::Instruction(
            t.clone(),
            match d {
                Some(s) => Some(s.clone()),
                None => None,
            },
        ),
    }
}

/// A copy of an element and of everything below it.
pub fn clone_element(e: &XmlElement) -> (r: XmlElement)
    ensures
        r@ == e@,
    decreases *e,
{
    let attributes = clone_attributes(&e.attributes);
    let mut children: Vec<Node> = Vec::new();
    let mut j: usize = 0;
    while j < e.children.len()
        invariant
            j <= e.children@.len(),
            children@.len() == j,
            forall|k: int| 0 <= k < j ==> children@[k]@ == e.children@[k]@,
        decreases e.children@.len() - j,
    {
        let c = clone_node(&e.children[j]);
        children.push(c);
        j += 1;
    }
    let r = XmlElement { name: e.name.clone(), scope: clone_scope(&e.scope), attributes, children };
    proof {
        lemma_element_view(r);
        lemma_element_view(*e);
        assert(nodes_model(r.children@) =~= nodes_model(e.children@));
    }
    r
}

/// The views of a sequence with one node more are the views of the
/// sequence with the view of that node.
pub proof fn lemma_nodes_model_push(s: Seq<Node>, n: Node)
    ensures
        nodes_model(s.push(n)) == nodes_model(s).push(n@),
{
    assert(nodes_model(s.push(n)) =~= nodes_model(s).push(n@));
}

/// The test "is an element with the tag `name`".
pub open spec fn named(name: Seq<char>) -> spec_fn(NodeModel) -> bool {
    |n: NodeModel| n.is_named(name)
}

/// The test "is no element with the tag `name`".
pub open spec fn not_named(name: Seq<char>) -> spec_fn(NodeModel) -> bool {
    |n: NodeModel| !n.is_named(name)
}

/// An element has a child with a tag exactly when it has at least one.
pub proof fn lemma_count_positive(e: ElementModel, name: Seq<char>)
    ensures
        e.has_child(name) == (e.count_children(name) > 0),
        e.has_child(name) == (exists|i: int|
            0 <= i < e.children.len() && (#[trigger] e.children[i]).is_named(name)),
{
    let p = named(name);
    lemma_first_where(e.children, p);
    let f = first_where(e.children, p);
    if f < e.children.len() {
        e.children.lemma_filter_contains(p, f);
        assert(e.children[f].is_named(name));
    } else {
        lemma_filter_none(e.children, p);
    }
}

/// Removing the children with one tag leaves none with that tag and does not
/// change how many there are with another.
pub proof fn lemma_count_without(e: ElementModel, gone: Seq<char>, name: Seq<char>)
    ensures
        e.without_children(gone).count_children(name) == if gone == name {
            0
        } else {
            e.count_children(name)
        },
{
    if gone == name {
        lemma_filter_apart(e.children, not_named(gone), named(name));
    } else {
        lemma_filter_within(e.children, not_named(gone), named(name));
    }
}

/// Where only the first child with a tag is kept there is one with that tag,
/// if there was any, and as many with another tag as before.
pub proof fn lemma_count_with_one(e: ElementModel, kept: Seq<char>, name: Seq<char>)
    ensures
        e.with_one_child(kept).count_children(name) == if name == kept && e.has_child(kept) {
            1
        } else {
            e.count_children(name)
        },
{
    let s = e.children;
    let i = e.child_position(kept);
    let p = named(name);
    lemma_first_where(s, named(kept));
    if i < s.len() {
        let head = s.take(i + 1);
        let tail = s.skip(i + 1);
        assert(s =~= head + tail);
        Seq::filter_distributes_over_add(head, tail, p);
        Seq::filter_distributes_over_add(head, tail.filter(not_named(kept)), p);
        if name == kept {
            lemma_filter_apart(tail, not_named(kept), p);
            assert(head =~= s.take(i) + seq![s[i]]);
            Seq::filter_distributes_over_add(s.take(i), seq![s[i]], p);
            lemma_filter_none(s.take(i), p);
            lemma_filter_all(seq![s[i]], p);
        } else {
            lemma_filter_within(tail, not_named(kept), p);
        }
    } else {
        lemma_count_positive(e, kept);
    }
}

/// A new first child counts for its own tag only.
pub proof fn lemma_count_with_first(e: ElementModel, node: NodeModel, name: Seq<char>)
    ensures
        e.with_first_child(node).count_children(name) == e.count_children(name) + if node.is_named(
            name,
        ) {
            1nat
        } else {
            0nat
        },
{
    let p = named(name);
    Seq::filter_distributes_over_add(seq![node], e.children, p);
    reveal(Seq::filter);
    assert(seq![node].drop_last() =~= Seq::<NodeModel>::empty());
    assert(Seq::<NodeModel>::empty().filter(p) =~= Seq::<NodeModel>::empty());
}

impl XmlElement {
    /// An element without attributes or children.
    pub fn new(name: &str) -> (r: XmlElement)
        ensures
            r@ == (ElementModel {
                name: name@,
                scope: ScopeModel::none(),
                attributes: Seq::empty(),
                children: Seq::empty(),
            }),
    {
        let r = XmlElement {
            name: name.to_owned(),
            scope: Scope::none(),
            attributes: Vec::new(),
            children: Vec::new(),
        };
        proof {
            lemma_element_view(r);
            assert(attributes_model(r.attributes@) =~= Seq::empty());
            assert(nodes_model(r.children@) =~= Seq::empty());
        }
        r
    }

    /// The element `<name>text</name>`.
    pub fn with_text(name: &str, text: &str) -> (r: XmlElement)
        ensures
            r@ == text_element_model(name@, text@),
    {
        let mut children: Vec<Node> = Vec::new();
        if !text.is_empty() {
            children.push(Node::Text(text.to_owned()));
        }
        let r = XmlElement {
            name: name.to_owned(),
            scope: Scope::none(),
            attributes: Vec::new(),
            children,
        };
        proof {
            lemma_element_view(r);
            assert(attributes_model(r.attributes@) =~= Seq::empty());
            assert(nodes_model(r.children@) =~= text_element_model(name@, text@).children);
        }
        r
    }

    /// The position of the first attribute called `key`, or the number of
    /// attributes.
    pub fn attribute_position(&self, key: &str) -> (r: usize)
        ensures
            r == self@.attribute_position(key@),
    {
        let ghost p = |a: AttributeModel| a.name == key@;
        let mut i: usize = 0;
        while i < self.attributes.len()
            invariant
                i <= self.attributes@.len(),
                p == |a: AttributeModel| a.name == key@,
                forall|j: int| 0 <= j < i ==> !p(#[trigger] self@.attributes[j]),
            decreases self.attributes@.len() - i,
        {
            proof {
                lemma_element_view(*self);
            }
            if text_eq(self.attributes[i].name.as_str(), key) {
                proof {
                    lemma_first_where_is(self@.attributes, p, i as int);
                }
                return i;
            }
            i += 1;
        }
        proof {
            lemma_element_view(*self);
            lemma_first_where_is(self@.attributes, p, i as int);
        }
        i
    }

    /// The value of the first attribute called `key`.
    pub fn attribute(&self, key: &str) -> (r: Option<String>)
        ensures
            text_option(r) == self@.attribute(key@),
    {
        let i = self.attribute_position(key);
        proof {
            lemma_element_view(*self);
        }
        if i < self.attributes.len() {
            Some(self.attributes[i].value.clone())
        } else {
            None
        }
    }

    /// Sets `key` to `value`: an attribute of that name keeps its place,
    /// otherwise the pair is added last.
    pub fn set_attribute(&mut self, key: &str, value: &str)
        ensures
            final(self)@ == old(self)@.with_attribute(key@, value@),
    {
        let i = self.attribute_position(key);
        let pair = Attribute { name: key.to_owned(), value: value.to_owned() };
        proof {
            lemma_element_view(*self);
        }
        if i < self.attributes.len() {
            self.attributes.set(i, pair);
        } else {
            self.attributes.push(pair);
        }
        proof {
            lemma_element_view(*self);
            assert(self@.attributes =~= old(self)@.with_attribute(key@, value@).attributes);
        }
    }

    /// The position of the first child element with the tag `name`, or the
    /// number of children.
    pub fn child_position(&self, name: &str) -> (r: usize)
        ensures
            r == self@.child_position(name@),
    {
        let ghost p = named(name@);
        let mut i: usize = 0;
        while i < self.children.len()
            invariant
                i <= self.children@.len(),
                p == named(name@),
                forall|j: int| 0 <= j < i ==> !p(#[trigger] self@.children[j]),
            decreases self.children@.len() - i,
        {
            proof {
                lemma_element_view(*self);
            }
            if node_is_named(&self.children[i], name) {
                proof {
                    lemma_first_where_is(self@.children, p, i as int);
                }
                return i;
            }
            i += 1;
        }
        proof {
            lemma_element_view(*self);
            lemma_first_where_is(self@.children, p, i as int);
        }
        i
    }

    /// Whether some child is an element with the tag `name`.
    pub fn has_child(&self, name: &str) -> (r: bool)
        ensures
            r == self@.has_child(name@),
    {
        proof {
            lemma_element_view(*self);
        }
        self.child_position(name) < self.children.len()
    }

    /// Removes every child element with the tag `name`.
    pub fn remove_children(&mut self, name: &str)
        ensures
            final(self)@ == old(self)@.without_children(name@),
    {
        let ghost p = not_named(name@);
        let ghost m = self@.children;
        let mut kept: Vec<Node> = Vec::new();
        let mut i: usize = 0;
        proof {
            lemma_element_view(*self);
            reveal(Seq::filter);
            assert(m.take(0).filter(p) =~= Seq::empty());
            assert(nodes_model(kept@) =~= Seq::empty());
        }
        while i < self.children.len()
            invariant
                i <= self.children@.len(),
                *self == *old(self),
                m == nodes_model(self.children@),
                p == not_named(name@),
                nodes_model(kept@) == m.take(i as int).filter(p),
            decreases self.children@.len() - i,
        {
            proof {
                lemma_filter_step(m, p, i as int);
            }
            if !node_is_named(&self.children[i], name) {
                let c = clone_node(&self.children[i]);
                proof {
                    lemma_nodes_model_push(kept@, c);
                }
                kept.push(c);
            }
            i += 1;
        }
        proof {
            assert(m.take(i as int) =~= m);
        }
        self.children = kept;
        proof {
            lemma_element_view(*self);
        }
    }

    /// Keeps only the first of the child elements with the tag `name`.
    pub fn keep_first_child(&mut self, name: &str)
        ensures
            final(self)@ == old(self)@.with_one_child(name@),
    {
        let at = self.child_position(name);
        proof {
            lemma_element_view(*self);
        }
        if at >= self.children.len() {
            return ;
        }
        let ghost p = not_named(name@);
        let ghost m = self@.children;
        let ghost tail = m.skip(at + 1);
        let n = self.children.len();
        let mut kept: Vec<Node> = Vec::new();
        let mut i: usize = 0;
        while i <= at
            invariant
                i <= at + 1,
                at < n,
                n == self.children@.len(),
                *self == *old(self),
                m == nodes_model(self.children@),
                kept@.len() == i,
                forall|t: int| 0 <= t < i ==> kept@[t]@ == m[t],
            decreases at + 1 - i,
        {
            kept.push(clone_node(&self.children[i]));
            i += 1;
        }
        proof {
            reveal(Seq::filter);
            assert(tail.take(0).filter(p) =~= Seq::empty());
            assert(nodes_model(kept@) =~= m.take(at + 1) + tail.take(0).filter(p));
        }
        while i < n
            invariant
                at < i <= n,
                n == self.children@.len(),
                *self == *old(self),
                m == nodes_model(self.children@),
                tail == m.skip(at + 1),
                p == not_named(name@),
                nodes_model(kept@) == m.take(at + 1) + tail.take(i - at - 1).filter(p),
            decreases n - i,
        {
            proof {
                lemma_filter_step(tail, p, i - at - 1);
                assert(tail[i - at - 1] == m[i as int]);
            }
            if !node_is_named(&self.children[i], name) {
                let c = clone_node(&self.children[i]);
                proof {
                    lemma_nodes_model_push(kept@, c);
                    assert((m.take(at + 1) + tail.take(i - at - 1).filter(p)).push(c@) =~= m.take(
                        at + 1,
                    ) + tail.take(i - at - 1).filter(p).push(c@));
                }
                kept.push(c);
            }
            i += 1;
        }
        proof {
            assert(tail.take(n - at - 1) =~= tail);
        }
        self.children = kept;
        proof {
            lemma_element_view(*self);
        }
    }

    /// Puts `node` before the children.
    pub fn insert_first(&mut self, node: Node)
        ensures
            final(self)@ == old(self)@.with_first_child(node@),
    {
        proof {
            lemma_element_view(*self);
        }
        self.children.insert(0, node);
        proof {
            lemma_element_view(*self);
            assert(self@.children =~= old(self)@.with_first_child(node@).children);
        }
    }
}

/// Whether a node is an element with the tag `name`.
pub fn node_is_named(n: &Node, name: &str) -> (r: bool)
    ensures
        r == n@.is_named(name@),
{
    match n {
        Node::Element(e) => {
            proof {
                lemma_element_view(*e);
            }
            text_eq(e.name.as_str(), name)
        },
        _ => false,
    }
}

} // verus!
