//! Reading and writing XML text.
//!
//! The XML reader and writer belong to the `xmltree` crate. What they do is
//! not proved here: this file says what is taken on trust of them. The rest of
//! the crate works on `crate::tree::XmlElement` and never on the trees of
//! `xmltree`.

use crate::normalize::Skip;
use crate::tree::{Attribute, ElementModel, Node, Scope, XmlElement};
use vstd::prelude::*;
use xmltree::{Namespace, XMLNode};

verus! {

/// What a tree of `xmltree` holds, as a tree of this crate: for each element
/// the tag, its prefix and namespace, the namespaces it declares, the
/// attributes in their order and the children in their order.
pub uninterp spec fn outside_model(x: xmltree::Element) -> ElementModel;

/// The text that `xmltree::Element::write_with_config` writes for a tree of
/// `xmltree`, with indentation; `None` where it reports an error.
pub uninterp spec fn outside_text(x: xmltree::Element) -> Option<Seq<char>>;

/// The document that `xmltree::Element::parse` reads from a text, as a tree of
/// this crate; `None` where it reports an error.
pub uninterp spec fn parsed_document(text: Seq<char>) -> Option<ElementModel>;

/// The text that is written for a tree of this crate; `None` where the writer
/// reports an error.
pub uninterp spec fn written_document(doc: ElementModel) -> Option<Seq<char>>;

/// Calls `xmltree::Element::parse` on the bytes of `text`. The claim is that
/// the outcome depends on the text alone: the same text always gives the same
/// tree or an error.
#[verifier::external_body]
fn read_outside(text: &str) -> (r: Result<xmltree::Element, xmltree::ParseError>)
    ensures
        match r {
            Ok(x) => parsed_document(text@) == Some(outside_model(x)),
            Err(_) => parsed_document(text@) is None,
        },
{
    xmltree::Element::parse(text.as_bytes())
}

/// Copies what an element of `xmltree` says of namespaces: the prefix and the
/// namespace of its tag, and its `namespaces`, which `xmltree` keeps in the
/// order of the prefixes.
#[verifier::external_body]
fn lift_scope(x: &xmltree::Element) -> Scope {
    let pair = |(k, v)| Attribute { name: String::clone(k), value: String::clone(v) };
    Scope {
        prefix: x.prefix.clone(),
        namespace: x.namespace.clone(),
        declared: x.namespaces.as_ref().map(|n| n.0.iter().map(pair).collect()),
    }
}

/// Copies a child of an element of `xmltree`, variant by variant.
#[verifier::external_body]
fn lift_node(n: &XMLNode) -> Node {
    match n {
        XMLNode::Element(c) => Node::Element(lift_element(c)),
        XMLNode::Comment(s) => Node::Comment(s.clone()),
        XMLNode::CData(s) => Node::CData(s.clone()),
        XMLNode::Text(s) => Node::Text(s.clone()),
        XMLNode::ProcessingInstruction(t, d) => Node::Instruction(t.clone(), d.clone()),
    }
}

/// Copies a tree of `xmltree` into a tree of this crate, field by field, with
/// `lift_scope` and `lift_node`. This copy is what `outside_model` stands for.
#[verifier::external_body]
fn lift_element(x: &xmltree::Element) -> (r: XmlElement)
    ensures
        r@ == outside_model(*x),
{
    let pair = |(k, v)| Attribute { name: String::clone(k), value: String::clone(v) };
    XmlElement {
        name: x.name.clone(),
        scope: lift_scope(x),
        attributes: x.attributes.iter().map(pair).collect(),
        children: x.children.iter().map(lift_node).collect(),
    }
}

/// Copies a child of an element of this crate, variant by variant.
#[verifier::external_body]
fn lower_node(n: &Node) -> XMLNode {
    match n {
        Node::Element(c) => XMLNode::Element(lower_element(c)),
        Node::Comment(s) => XMLNode::Comment(s.clone()),
        Node::CData(s) => XMLNode::CData(s.clone()),
        Node::Text(s) => XMLNode::Text(s.clone()),
        Node::Instruction(t, d) => XMLNode::ProcessingInstruction(t.clone(), d.clone()),
    }
}

/// Copies what an element of this crate says of namespaces into an element of
/// `xmltree`.
#[verifier::external_body]
fn lower_scope(x: &mut xmltree::Element, scope: &Scope) {
    let pair = |a: &Attribute| (a.name.clone(), a.value.clone());
    x.prefix = scope.prefix.clone();
    x.namespace = scope.namespace.clone();
    x.namespaces = scope.declared.as_ref().map(|n| Namespace(n.iter().map(pair).collect()));
}

/// Copies a tree of this crate into a tree of `xmltree`, field by field, with
/// `lower_scope` and `lower_node`. The claim is that what is written for the
/// copy depends on the content of the tree alone; `written_document` stands
/// for it.
#[verifier::external_body]
fn lower_element(e: &XmlElement) -> (r: xmltree::Element)
    ensures
        outside_text(r) == written_document(e@),
{
    let mut x = xmltree::Element::new(&e.name);
    lower_scope(&mut x, &e.scope);
    x.attributes = e.attributes.iter().map(|a| (a.name.clone(), a.value.clone())).collect();
    x.children = e.children.iter().map(lower_node).collect();
    x
}

/// Calls `xmltree::Element::write_with_config`, with indentation switched on,
/// into memory. The claim is that the outcome depends on the tree alone.
#[verifier::external_body]
fn write_outside(x: &xmltree::Element) -> (r: Result<String, xmltree::Error>)
    ensures
        match r {
            Ok(text) => outside_text(*x) == Some(text@),
            Err(_) => outside_text(*x) is None,
        },
{
    let mut out: Vec<u8> = Vec::new();
    let config = xmltree::EmitterConfig::new().perform_indent(true);
    x.write_with_config(&mut out, config)?;
    Ok(String::from_utf8_lossy(&out).into_owned())
}

/// Reads a document from XML text.
pub fn read_document(text: &str) -> (r: Result<XmlElement, Skip>)
    ensures
        match r {
            Ok(doc) => parsed_document(text@) == Some(doc@),
            Err(why) => why == Skip::Malformed && parsed_document(text@) is None,
        },
{
    match read_outside(text) {
        Ok(x) => Ok(lift_element(&x)),
        Err(_) => Err(Skip::Malformed),
    }
}

/// Writes a document as indented XML text.
pub fn write_document(doc: &XmlElement) -> (r: Result<String, Skip>)
    ensures
        match r {
            Ok(text) => written_document(doc@) == Some(text@),
            Err(why) => why == Skip::Unwritable && written_document(doc@) is None,
        },
{
    let x = lower_element(doc);
    match write_outside(&x) {
        Ok(text) => Ok(text),
        Err(_) => Err(Skip::Unwritable),
    }
}

} // verus!
