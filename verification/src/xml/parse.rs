use crate::xml::tree::{XmlAttribute, XmlElement, XmlNode};
use vstd::prelude::*;

verus! {

/// A node of a document parsed by roxmltree.
#[verifier::external_type_specification]
#[verifier::external_body]
pub struct ExRoxmlNode<'a, 'input: 'a>(roxmltree::Node<'a, 'input>);

/// The error roxmltree returns for a text that is not well-formed XML.
#[verifier::external_type_specification]
#[verifier::external_body]
pub struct ExRoxmlError(roxmltree::Error);

/// The root element, with its whole subtree, that `roxmltree::Document::parse`
/// builds from a text; nothing for a text that is not well-formed XML.
pub uninterp spec fn xml_document(text: Seq<char>) -> Option<XmlElement>;

/// Parses a text as XML with `roxmltree::Document::parse` and copies the
/// root element's subtree into an [`XmlElement`].
///
/// The contract claims that the outcome is a function of the text alone:
/// the tree named by [`xml_document`], or an error exactly when there is
/// none. What that tree is for a given text is left to roxmltree.
#[verifier::external_body]
pub(crate) fn parse_xml(text: &str) -> (r: Result<XmlElement, roxmltree::Error>)
    ensures
        r is Ok <==> xml_document(text@) is Some,
        r matches Ok(e) ==> xml_document(text@) == Some(e),
{
    match roxmltree::Document::parse(text) {
        Ok(document) => Ok(element_of(document.root_element())),
        Err(error) => Err(error),
    }
}

/// Copies an element node of roxmltree with its subtree, one field for one
/// field: namespace URI, local name, attributes (local name and value, in
/// order), and children in order (an element, character data, or any other
/// kind of node).
#[verifier::external_body]
fn element_of(node: roxmltree::Node) -> XmlElement {
    XmlElement {
        namespace: node.tag_name().namespace().map(String::from),
        name: String::from(node.tag_name().name()),
        attributes: node.attributes().map(
            |a| XmlAttribute { name: String::from(a.name()), value: String::from(a.value()) },
        ).collect(),
        children: node.children().map(|c| match c.node_type() {
            roxmltree::NodeType::Element => XmlNode::Element(element_of(c)),
            roxmltree::NodeType::Text => XmlNode::Text(String::from(c.text().unwrap_or(""))),
            roxmltree::NodeType::Root => XmlNode::Other,
            roxmltree::NodeType::PI => XmlNode::Other,
            roxmltree::NodeType::Comment => XmlNode::Other,
        }).collect(),
    }
}

} // verus!
