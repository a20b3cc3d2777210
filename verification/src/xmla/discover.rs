use crate::xml::writer::{
    end_tag, start_tag_with_attribute, write_end_tag, write_start_tag_with_attribute,
};
use crate::xmla::props::XmlaProperties;
use crate::xmla::restrictions::{list_xml, XmlaRestrictions};
use crate::xmla::soap::{lemma_encode_append, text_element, write_text_element, ToXml};
use vstd::prelude::*;
use vstd::utf8::encode_utf8;

verus! {

/// Namespace of XMLA requests and responses.
pub const XMLA_NS: &'static str = "urn:schemas-microsoft-com:xml-analysis";

/// An XMLA Discover request: which schema rowset, filtered by which
/// restrictions, with which properties.
pub struct XmlaDiscover {
    pub request_type: String,
    pub restrictions: XmlaRestrictions,
    pub properties: XmlaProperties,
}

impl XmlaDiscover {
    /// A request for the given rowset, with no restrictions and no
    /// properties.
    pub fn new(request_type: String) -> (r: XmlaDiscover)
        ensures
            r.request_type@ == request_type@,
            r.restrictions@ == Seq::<(Seq<char>, Seq<char>)>::empty(),
            r.properties@ == Seq::<(Seq<char>, Seq<char>)>::empty(),
    {
        XmlaDiscover {
            request_type,
            restrictions: XmlaRestrictions::new(),
            properties: XmlaProperties::new(),
        }
    }
}

/// The XML text of a Discover request.
pub open spec fn discover_xml(
    request_type: Seq<char>,
    restrictions: Seq<(Seq<char>, Seq<char>)>,
    properties: Seq<(Seq<char>, Seq<char>)>,
) -> Seq<char> {
    start_tag_with_attribute("Discover"@, "xmlns"@, XMLA_NS@) + text_element(
        "RequestType"@,
        request_type,
    ) + list_xml("Restrictions"@, "RestrictionList"@, restrictions) + list_xml(
        "Properties"@,
        "PropertyList"@,
        properties,
    ) + end_tag("Discover"@)
}

impl ToXml for XmlaDiscover {
    open spec fn xml_text(&self) -> Seq<char> {
        discover_xml(self.request_type@, self.restrictions@, self.properties@)
    }

    fn to_xml(&self, out: &mut Vec<u8>) -> (r: Result<(), std::io::Error>) {
        write_start_tag_with_attribute(out, "Discover", "xmlns", XMLA_NS)?;
        let ghost t1 = start_tag_with_attribute("Discover"@, "xmlns"@, XMLA_NS@);
        write_text_element(out, "RequestType", self.request_type.as_str())?;
        proof {
            lemma_encode_append(encode_utf8(t1), t1, text_element("RequestType"@, self.request_type@));
        }
        let ghost t2 = t1 + text_element("RequestType"@, self.request_type@);
        self.restrictions.to_xml(out)?;
        proof {
            lemma_encode_append(encode_utf8(t2), t2, self.restrictions.xml_text());
        }
        let ghost t3 = t2 + self.restrictions.xml_text();
        self.properties.to_xml(out)?;
        proof {
            lemma_encode_append(encode_utf8(t3), t3, self.properties.xml_text());
        }
        let ghost t4 = t3 + self.properties.xml_text();
        write_end_tag(out, "Discover")?;
        proof {
            lemma_encode_append(encode_utf8(t4), t4, end_tag("Discover"@));
        }
        assert(final(out)@ =~= old(out)@ + encode_utf8(self.xml_text()));
        Ok(())
    }
}

} // verus!
