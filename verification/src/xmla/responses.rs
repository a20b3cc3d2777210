use crate::connection::error::{XmlaError, XmlaErrorView};
use crate::xml::parse::{parse_xml, xml_document};
use crate::xml::tree::{
    element_children, lemma_find_child_found, name_test, spec_find_child_from, text_or_empty,
    XmlElement, XmlNode,
};
use crate::xmla::discover::XMLA_NS;
use crate::xmla::soap::{get_body_child, spec_get_body_child};
use vstd::prelude::*;
use vstd::string::StringExecFns;

verus! {

/// Namespace of the rowset inside a Discover response.
pub const XMLA_ROWSET_NS: &'static str = "urn:schemas-microsoft-com:xml-analysis:rowset";

/// The namespace URI of an element, or the empty string.
pub open spec fn namespace_or_empty(e: XmlElement) -> Seq<char> {
    match e.namespace {
        Some(ns) => ns@,
        None => Seq::empty(),
    }
}

/// The message for an element whose name is not the expected one.
pub open spec fn tag_mismatch_message(e: XmlElement, ns: Seq<char>, tag: Seq<char>) -> Seq<char> {
    "Expected {"@ + ns + "}"@ + tag + " node, found: {"@ + namespace_or_empty(e) + "}/"@ + e.name@
}

/// Checking that an element is named `{ns}tag`.
pub open spec fn spec_check_tag_name(e: XmlElement, ns: Seq<char>, tag: Seq<char>) -> Result<
    (),
    XmlaErrorView,
> {
    if name_test(e, Some(ns), Some(tag)) {
        Ok(())
    } else {
        Err(XmlaErrorView::ParsingError(tag_mismatch_message(e, ns, tag)))
    }
}

/// The first child element of `parent`, which must be named `{ns}tag`.
pub open spec fn spec_first_element_child(parent: XmlElement, ns: Seq<char>, tag: Seq<char>) -> Result<
    XmlElement,
    XmlaErrorView,
> {
    match spec_find_child_from(parent.children@, None, None, 0) {
        None => Err(XmlaErrorView::ParsingError("No {"@ + ns + "}"@ + tag + " node in XML"@)),
        Some(i) => {
            let c = parent.children@[i]->Element_0;
            match spec_check_tag_name(c, ns, tag) {
                Ok(_) => Ok(c),
                Err(e) => Err(e),
            }
        },
    }
}

/// Checks that an element is named `{ns}tag`.
pub fn check_tag_name(node: &XmlElement, ns: &str, tag_name: &str) -> (r: Result<(), XmlaError>)
    ensures
        match spec_check_tag_name(*node, ns@, tag_name@) {
            Ok(_) => r is Ok,
            Err(e) => r matches Err(x) && x@ == e,
        },
{
    if node.matches_name(Some(ns), Some(tag_name)) {
        return Ok(());
    }
    let mut message = String::from_str("Expected {");
    message.append(ns);
    message.append("}");
    message.append(tag_name);
    message.append(" node, found: {");
    match &node.namespace {
        Some(n) => message.append(n.as_str()),
        None => {},
    }
    message.append("}/");
    message.append(node.name.as_str());
    Err(XmlaError::ParsingError(message))
}

/// The first child element of `parent`, which must be named `{ns}tag`.
pub fn get_first_element_child<'a>(parent: &'a XmlElement, ns: &str, tag_name: &str) -> (r: Result<
    &'a XmlElement,
    XmlaError,
>)
    ensures
        match spec_first_element_child(*parent, ns@, tag_name@) {
            Ok(c) => r matches Ok(x) && *x == c,
            Err(e) => r matches Err(x) && x@ == e,
        },
{
    proof {
        lemma_find_child_found(parent.children@, None, None, 0);
    }
    let node = match parent.find_child(None, None) {
        Some(c) => c,
        None => {
            let mut message = String::from_str("No {");
            message.append(ns);
            message.append("}");
            message.append(tag_name);
            message.append(" node in XML");
            return Err(XmlaError::ParsingError(message));
        },
    };
    check_tag_name(node, ns, tag_name)?;
    Ok(node)
}

/// The value of the last field from the end down to index `i` whose name
/// is `key`.
pub open spec fn spec_row_get(fields: Seq<(Seq<char>, Seq<char>)>, key: Seq<char>) -> Option<
    Seq<char>,
>
    decreases fields.len(),
{
    if fields.len() == 0 {
        None
    } else if fields.last().0 == key {
        Some(fields.last().1)
    } else {
        spec_row_get(fields.drop_last(), key)
    }
}

/// One row of a Discover response: its fields by name, in document order.
#[derive(Debug, Clone)]
pub struct XmlaRow {
    fields: Vec<(String, String)>,
}

/// The characters of each field name and value.
pub open spec fn fields_view(fields: Seq<(String, String)>) -> Seq<(Seq<char>, Seq<char>)> {
    fields.map_values(|p: (String, String)| (p.0@, p.1@))
}

impl View for XmlaRow {
    type V = Seq<(Seq<char>, Seq<char>)>;

    closed spec fn view(&self) -> Seq<(Seq<char>, Seq<char>)> {
        fields_view(self.fields@)
    }
}

impl XmlaRow {
    /// The value of the field named `key`; when a name occurs twice, the
    /// later field counts.
    pub fn get(&self, key: &str) -> (r: Option<&String>)
        ensures
            match r {
                Some(v) => spec_row_get(self@, key@) == Some(v@),
                None => spec_row_get(self@, key@) is None,
            },
    {
        let mut i: usize = self.fields.len();
        assert(self@.take(i as int) =~= self@);
        while i > 0
            invariant
                i <= self.fields@.len(),
                spec_row_get(self@, key@) == spec_row_get(self@.take(i as int), key@),
            decreases i,
        {
            proof {
                assert(self@.take(i as int).drop_last() =~= self@.take(i - 1));
            }
            if crate::xml::tree::str_eq(self.fields[i - 1].0.as_str(), key) {
                return Some(&self.fields[i - 1].1);
            }
            i = i - 1;
        }
        None
    }

    /// The fields, in document order.
    pub fn fields(&self) -> (r: &[(String, String)])
        ensures
            fields_view(r@) == self@,
    {
        self.fields.as_slice()
    }

    /// Number of fields.
    pub fn len(&self) -> (r: usize)
        ensures
            r == self@.len(),
    {
        self.fields.len()
    }
}

/// The fields of a row element: one per child element, its local name and
/// its text.
pub open spec fn spec_row_fields(row: XmlElement) -> Seq<(Seq<char>, Seq<char>)> {
    element_children(row.children@).map_values(|f: XmlElement| (f.name@, text_or_empty(f)))
}

/// The rows of a rowset root element: one per child element.
pub open spec fn spec_rows(root: XmlElement) -> Seq<Seq<(Seq<char>, Seq<char>)>> {
    element_children(root.children@).map_values(|row: XmlElement| spec_row_fields(row))
}

/// Reading a Discover response element: its rows, or the error.
pub open spec fn spec_discover_from_xml(node: XmlElement) -> Result<
    Seq<Seq<(Seq<char>, Seq<char>)>>,
    XmlaErrorView,
> {
    match spec_check_tag_name(node, XMLA_NS@, "DiscoverResponse"@) {
        Err(e) => Err(e),
        Ok(_) => match spec_first_element_child(node, XMLA_NS@, "return"@) {
            Err(e) => Err(e),
            Ok(ret) => match spec_first_element_child(ret, XMLA_ROWSET_NS@, "root"@) {
                Err(e) => Err(e),
                Ok(root) => Ok(spec_rows(root)),
            },
        },
    }
}

/// The rows of an XMLA Discover response, each a set of named values.
#[derive(Debug, Default)]
pub struct XmlaDiscoverResponse {
    rows: Vec<XmlaRow>,
}

impl View for XmlaDiscoverResponse {
    type V = Seq<Seq<(Seq<char>, Seq<char>)>>;

    closed spec fn view(&self) -> Seq<Seq<(Seq<char>, Seq<char>)>> {
        self.rows@.map_values(|r: XmlaRow| r@)
    }
}

/// Reads the fields of a row element.
fn row_of(row: &XmlElement) -> (r: XmlaRow)
    ensures
        r@ == spec_row_fields(*row),
{
    let mut fields: Vec<(String, String)> = Vec::new();
    let mut i: usize = 0;
    while i < row.children.len()
        invariant
            i <= row.children@.len(),
            fields_view(fields@) == element_children(row.children@.take(i as int)).map_values(
                |f: XmlElement| (f.name@, text_or_empty(f)),
            ),
        decreases row.children@.len() - i,
    {
        let ghost before = fields@;
        let ghost prev = element_children(row.children@.take(i as int));
        assert(row.children@.take(i + 1).drop_last() =~= row.children@.take(i as int));
        assert(row.children@.take(i + 1).last() == row.children@[i as int]);
        match &row.children[i] {
            XmlNode::Element(field) => {
                let value = match field.text() {
                    Some(t) => t.clone(),
                    None => String::new(),
                };
                assert(value@ == text_or_empty(*field));
                let name = field.name.clone();
                fields.push((name, value));
                assert(fields_view(fields@) =~= fields_view(before).push(
                    (field.name@, text_or_empty(*field)),
                ));
                assert(element_children(row.children@.take(i + 1)) =~= prev.push(*field));
            },
            _ => {
                assert(element_children(row.children@.take(i + 1)) =~= prev);
            },
        }
        i = i + 1;
        assert(fields_view(fields@) =~= element_children(row.children@.take(i as int)).map_values(
            |f: XmlElement| (f.name@, text_or_empty(f)),
        ));
    }
    assert(row.children@.take(i as int) =~= row.children@);
    XmlaRow { fields }
}

impl XmlaDiscoverResponse {
    /// A response without rows.
    pub fn new() -> (r: XmlaDiscoverResponse)
        ensures
            r@ == Seq::<Seq<(Seq<char>, Seq<char>)>>::empty(),
    {
        let r = XmlaDiscoverResponse { rows: Vec::new() };
        assert(r@ =~= Seq::<Seq<(Seq<char>, Seq<char>)>>::empty());
        r
    }

    /// Appends a row.
    pub fn add_row(&mut self, row: XmlaRow)
        ensures
            final(self)@ == old(self)@.push(row@),
    {
        self.rows.push(row);
        assert(self@ =~= old(self)@.push(row@));
    }

    /// The rows, in document order.
    pub fn rows(&self) -> (r: &[XmlaRow])
        ensures
            r@.map_values(|x: XmlaRow| x@) == self@,
    {
        self.rows.as_slice()
    }

    /// Reads a DiscoverResponse element: its `return` child, the rowset
    /// `root` inside it, and one row per child element of the root.
    pub fn from_xml(node: &XmlElement) -> (r: Result<XmlaDiscoverResponse, XmlaError>)
        ensures
            match spec_discover_from_xml(*node) {
                Ok(rows) => r matches Ok(x) && x@ == rows,
                Err(e) => r matches Err(x) && x@ == e,
            },
    {
        check_tag_name(node, XMLA_NS, "DiscoverResponse")?;
        let return_node = get_first_element_child(node, XMLA_NS, "return")?;
        let root_node = get_first_element_child(return_node, XMLA_ROWSET_NS, "root")?;
        let mut response = XmlaDiscoverResponse::new();
        let mut i: usize = 0;
        while i < root_node.children.len()
            invariant
                i <= root_node.children@.len(),
                response@ == element_children(root_node.children@.take(i as int)).map_values(
                    |row: XmlElement| spec_row_fields(row),
                ),
            decreases root_node.children@.len() - i,
        {
            let ghost prev = element_children(root_node.children@.take(i as int));
            assert(root_node.children@.take(i + 1).drop_last() =~= root_node.children@.take(
                i as int,
            ));
            assert(root_node.children@.take(i + 1).last() == root_node.children@[i as int]);
            match &root_node.children[i] {
                XmlNode::Element(row) => {
                    let values = row_of(row);
                    response.add_row(values);
                    assert(element_children(root_node.children@.take(i + 1)) =~= prev.push(*row));
                },
                _ => {
                    assert(element_children(root_node.children@.take(i + 1)) =~= prev);
                },
            }
            i = i + 1;
            assert(response@ =~= element_children(root_node.children@.take(i as int)).map_values(
                |row: XmlElement| spec_row_fields(row),
            ));
        }
        assert(root_node.children@.take(i as int) =~= root_node.children@);
        Ok(response)
    }
}

impl XmlaDiscoverResponse {
    /// Reads the answer to a Discover request from a parsed SOAP message.
    pub fn from_document(document: &XmlElement) -> (r: Result<XmlaDiscoverResponse, XmlaError>)
        ensures
            match spec_get_body_child(*document) {
                Err(e) => r matches Err(x) && x@ == e,
                Ok(child) => match spec_discover_from_xml(child) {
                    Ok(rows) => r matches Ok(x) && x@ == rows,
                    Err(e) => r matches Err(x) && x@ == e,
                },
            },
    {
        let child = get_body_child(document)?;
        XmlaDiscoverResponse::from_xml(child)
    }
}

/// Reading the text of a SOAP message that answers a Discover request.
pub open spec fn spec_parse_discover_response(xml: Seq<char>) -> Result<
    Seq<Seq<(Seq<char>, Seq<char>)>>,
    XmlaErrorView,
> {
    match xml_document(xml) {
        None => Err(XmlaErrorView::Xml),
        Some(document) => match spec_get_body_child(document) {
            Err(e) => Err(e),
            Ok(child) => spec_discover_from_xml(child),
        },
    }
}

/// Parses the SOAP message that answers a Discover request.
pub fn parse_discover_response(xml: &str) -> (r: Result<XmlaDiscoverResponse, XmlaError>)
    ensures
        match spec_parse_discover_response(xml@) {
            Ok(rows) => r matches Ok(x) && x@ == rows,
            Err(e) => r matches Err(x) && x@ == e,
        },
{
    let document = match parse_xml(xml) {
        Ok(d) => d,
        Err(e) => {
            return Err(XmlaError::Xml(e));
        },
    };
    XmlaDiscoverResponse::from_document(&document)
}

} // verus!
