use crate::xml::writer::{
    end_tag, lemma_encode_utf8_concat, start_tag, start_tag_with_attribute, write_end_tag,
    write_start_tag, write_start_tag_with_attribute, write_text, xml_escape,
};
use crate::connection::error::{XmlaError, XmlaErrorView};
use crate::xml::tree::{
    lemma_find_child_found, name_test, spec_find_child_from, spec_find_descendant, spec_text,
    XmlElement, XmlNode,
};
use vstd::prelude::*;
use vstd::string::StringExecFns;
use vstd::utf8::encode_utf8;

verus! {

/// Namespace of the SOAP envelope.
pub const SOAP_NS: &'static str = "http://schemas.xmlsoap.org/soap/envelope/";

/// The Content property of an XMLA request: what the response carries.
#[derive(Debug, Clone, Copy, PartialEq, Eq, Structural)]
pub enum XmlaOperationContent {
    /// Validates the structure without executing.
    ValidateOnly,
    /// Schema only.
    Schema,
    /// Requested rows only.
    Data,
    /// Schema and rows; default.
    SchemaData,
    /// Schema plus multidimensional OlapInfo.
    Metadata,
}

/// The name of a Content value as XMLA spells it.
pub open spec fn operation_content_name(c: XmlaOperationContent) -> Seq<char> {
    match c {
        XmlaOperationContent::ValidateOnly => "None"@,
        XmlaOperationContent::Schema => "Schema"@,
        XmlaOperationContent::Data => "Data"@,
        XmlaOperationContent::SchemaData => "SchemaData"@,
        XmlaOperationContent::Metadata => "Metadata"@,
    }
}

impl XmlaOperationContent {
    /// The name of this Content value as XMLA spells it.
    pub fn as_str(&self) -> (r: &'static str)
        ensures
            r@ == operation_content_name(*self),
    {
        match self {
            XmlaOperationContent::ValidateOnly => "None",
            XmlaOperationContent::Schema => "Schema",
            XmlaOperationContent::Data => "Data",
            XmlaOperationContent::SchemaData => "SchemaData",
            XmlaOperationContent::Metadata => "Metadata",
        }
    }
}

/// Distinct Content values have distinct names.
pub proof fn lemma_operation_content_names_distinct(a: XmlaOperationContent, b: XmlaOperationContent)
    ensures
        operation_content_name(a) == operation_content_name(b) ==> a == b,
{
    reveal_strlit("None");
    reveal_strlit("Schema");
    reveal_strlit("Data");
    reveal_strlit("SchemaData");
    reveal_strlit("Metadata");
    if operation_content_name(a) == operation_content_name(b) && a != b {
        let x = operation_content_name(a);
        let y = operation_content_name(b);
        assert(x.len() != y.len() || x[0] != y[0] || x[4] != y[4]);
    }
}

/// The text of an element that holds only text.
pub open spec fn text_element(name: Seq<char>, text: Seq<char>) -> Seq<char> {
    start_tag(name) + xml_escape(text) + end_tag(name)
}

/// A SOAP envelope whose body holds the given XML.
pub open spec fn soap_envelope(body: Seq<char>) -> Seq<char> {
    start_tag_with_attribute("soap:Envelope"@, "xmlns:soap"@, SOAP_NS@) + start_tag("soap:Body"@)
        + body + end_tag("soap:Body"@) + end_tag("soap:Envelope"@)
}

/// Bytes that encode `a` followed by the encoding of `b` encode `a + b`.
pub proof fn lemma_encode_append(bytes: Seq<u8>, a: Seq<char>, b: Seq<char>)
    requires
        bytes == encode_utf8(a),
    ensures
        bytes + encode_utf8(b) == encode_utf8(a + b),
{
    lemma_encode_utf8_concat(a, b);
}

/// Writes an element that holds only text.
pub fn write_text_element(out: &mut Vec<u8>, name: &str, text: &str) -> (r: Result<(), std::io::Error>)
    ensures
        r is Ok,
        r is Ok ==> final(out)@ == old(out)@ + encode_utf8(text_element(name@, text@)),
{
    write_start_tag(out, name)?;
    write_text(out, text)?;
    write_end_tag(out, name)?;
    proof {
        lemma_encode_utf8_concat(start_tag(name@), xml_escape(text@));
        lemma_encode_utf8_concat(start_tag(name@) + xml_escape(text@), end_tag(name@));
    }
    assert(final(out)@ =~= old(out)@ + encode_utf8(text_element(name@, text@)));
    Ok(())
}

/// A value that serializes to an XML fragment.
pub trait ToXml {
    /// The XML text of the value.
    spec fn xml_text(&self) -> Seq<char>;

    /// Appends the UTF-8 encoding of the value's XML text.
    fn to_xml(&self, out: &mut Vec<u8>) -> (r: Result<(), std::io::Error>)
        ensures
            r is Ok,
            r is Ok ==> final(out)@ == old(out)@ + encode_utf8(self.xml_text()),
    ;
}

/// A request that serializes to a SOAP message.
pub trait ToSoap {
    /// The text of the SOAP message.
    spec fn soap_text(&self) -> Seq<char>;

    /// The UTF-8 encoding of the SOAP message.
    fn to_soap(&self) -> (r: Result<Vec<u8>, std::io::Error>)
        ensures
            r is Ok,
            r matches Ok(v) ==> v@ == encode_utf8(self.soap_text()),
    ;
}

impl<T: ToXml> ToSoap for T {
    open spec fn soap_text(&self) -> Seq<char> {
        soap_envelope(self.xml_text())
    }

    fn to_soap(&self) -> (r: Result<Vec<u8>, std::io::Error>) {
        let mut out: Vec<u8> = Vec::new();
        proof {
            reveal_strlit("");
        }
        write_start_tag_with_attribute(&mut out, "soap:Envelope", "xmlns:soap", SOAP_NS)?;
        let ghost t1 = start_tag_with_attribute("soap:Envelope"@, "xmlns:soap"@, SOAP_NS@);
        assert(out@ =~= encode_utf8(t1));
        write_start_tag(&mut out, "soap:Body")?;
        proof {
            lemma_encode_append(encode_utf8(t1), t1, start_tag("soap:Body"@));
        }
        let ghost t2 = t1 + start_tag("soap:Body"@);
        self.to_xml(&mut out)?;
        proof {
            lemma_encode_append(encode_utf8(t2), t2, self.xml_text());
        }
        let ghost t3 = t2 + self.xml_text();
        write_end_tag(&mut out, "soap:Body")?;
        proof {
            lemma_encode_append(encode_utf8(t3), t3, end_tag("soap:Body"@));
        }
        let ghost t4 = t3 + end_tag("soap:Body"@);
        write_end_tag(&mut out, "soap:Envelope")?;
        proof {
            lemma_encode_append(encode_utf8(t4), t4, end_tag("soap:Envelope"@));
        }
        Ok(out)
    }
}

/// The first child element of `e` whose local name is `name`, whatever its
/// namespace.
pub open spec fn spec_child_named(e: XmlElement, name: Seq<char>) -> Option<XmlElement> {
    match spec_find_child_from(e.children@, None, Some(name), 0) {
        Some(i) => Some(e.children@[i]->Element_0),
        None => None,
    }
}

/// The text of the first child element named `name`, or `Unknown`.
pub open spec fn fault_field(e: XmlElement, name: Seq<char>) -> Seq<char> {
    match spec_child_named(e, name) {
        Some(c) => match spec_text(c) {
            Some(t) => t,
            None => "Unknown"@,
        },
        None => "Unknown"@,
    }
}

/// The error that a SOAP Fault element reports: its fault code and fault
/// string.
pub open spec fn spec_fault_message(fault: XmlElement) -> Seq<char> {
    fault_field(fault, "faultcode"@) + ": "@ + fault_field(fault, "faultstring"@)
}

/// The first element child of the first SOAP Body element of a document,
/// or the error: no body, or an empty body.
pub open spec fn spec_body_first_child(document: XmlElement) -> Result<XmlElement, XmlaErrorView> {
    match spec_find_descendant(document, Some(SOAP_NS@), Some("Body"@)) {
        None => Err(XmlaErrorView::ProtocolError("No body found"@)),
        Some(body) => match spec_find_child_from(body.children@, None, None, 0) {
            None => Err(XmlaErrorView::ProtocolError("Empty body"@)),
            Some(i) => Ok(body.children@[i]->Element_0),
        },
    }
}

/// The first element child of the first SOAP Body element of a document,
/// or the error: no body, an empty body, or a SOAP Fault.
pub open spec fn spec_get_body_child(document: XmlElement) -> Result<XmlElement, XmlaErrorView> {
    match spec_body_first_child(document) {
        Err(e) => Err(e),
        Ok(child) => if name_test(child, Some(SOAP_NS@), Some("Fault"@)) {
            Err(XmlaErrorView::ProtocolError(spec_fault_message(child)))
        } else {
            Ok(child)
        },
    }
}

/// The text of the first child element named `name`, or `Unknown`.
fn fault_field_text<'a>(node: &'a XmlElement, name: &str) -> (r: &'a str)
    ensures
        r@ == fault_field(*node, name@),
{
    proof {
        lemma_find_child_found(node.children@, None, Some(name@), 0);
    }
    match node.find_child(None, Some(name)) {
        Some(c) => match c.text() {
            Some(t) => t.as_str(),
            None => "Unknown",
        },
        None => "Unknown",
    }
}

/// The error that a SOAP Fault element reports.
pub fn parse_fault(node: &XmlElement) -> (r: XmlaError)
    ensures
        r@ == XmlaErrorView::ProtocolError(spec_fault_message(*node)),
{
    let mut message = String::from_str(fault_field_text(node, "faultcode"));
    message.append(": ");
    message.append(fault_field_text(node, "faultstring"));
    XmlaError::ProtocolError(message)
}

/// The first element child of the first SOAP Body element of a document,
/// whatever it is.
pub fn body_first_child(document: &XmlElement) -> (r: Result<&XmlElement, XmlaError>)
    ensures
        match spec_body_first_child(*document) {
            Ok(c) => r matches Ok(x) && *x == c,
            Err(e) => r matches Err(x) && x@ == e,
        },
{
    let body = match document.find_descendant(Some(SOAP_NS), Some("Body")) {
        Some(b) => b,
        None => {
            return Err(XmlaError::ProtocolError(String::from_str("No body found")));
        },
    };
    proof {
        lemma_find_child_found(body.children@, None, None, 0);
    }
    match body.find_child(None, None) {
        Some(c) => Ok(c),
        None => Err(XmlaError::ProtocolError(String::from_str("Empty body"))),
    }
}

/// The first element child of the first SOAP Body element of a document;
/// a SOAP Fault there is turned into the error it reports.
pub fn get_body_child(document: &XmlElement) -> (r: Result<&XmlElement, XmlaError>)
    ensures
        match spec_get_body_child(*document) {
            Ok(c) => r matches Ok(x) && *x == c,
            Err(e) => r matches Err(x) && x@ == e,
        },
{
    let child = body_first_child(document)?;
    if child.matches_name(Some(SOAP_NS), Some("Fault")) {
        return Err(parse_fault(child));
    }
    Ok(child)
}

} // verus!
