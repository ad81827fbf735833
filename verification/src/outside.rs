//! The types of the `xmltree` crate that pass through this crate. They are
//! declared as opaque: nothing is known of what a value of them holds.

use vstd::prelude::*;

verus! {

/// `xmltree::Element`, a parsed XML element.
#[verifier::external_type_specification]
#[verifier::external_body]
pub struct OutsideElement(xmltree::Element);

/// `xmltree::XMLNode`, a child of a parsed XML element.
#[verifier::external_type_specification]
#[verifier::external_body]
pub struct OutsideNode(xmltree::XMLNode);

/// `xmltree::ParseError`, the error of `xmltree::Element::parse`.
#[verifier::external_type_specification]
#[verifier::external_body]
pub struct OutsideParseError(xmltree::ParseError);

/// `xmltree::Error`, the error of `xmltree::Element::write_with_config`.
#[verifier::external_type_specification]
#[verifier::external_body]
pub struct OutsideWriteError(xmltree::Error);

} // verus!
