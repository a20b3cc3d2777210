use crate::connection::error::XmlaError;
use crate::xml::writer::{
    end_tag, start_tag, start_tag_with_attribute, write_end_tag, write_start_tag,
    write_start_tag_with_attribute,
};
use crate::xmla::discover::XMLA_NS;
use crate::xmla::props::XmlaProperties;
use crate::xmla::restrictions::list_xml;
use crate::xmla::soap::{lemma_encode_append, text_element, write_text_element, ToXml};
use vstd::prelude::*;
use vstd::string::StringExecFns;
use vstd::utf8::encode_utf8;

verus! {

/// An XMLA Execute request: an MDX statement and its properties.
pub struct XmlaExecute {
    pub query: String,
    pub properties: XmlaProperties,
}

impl XmlaExecute {
    /// A request that runs `query` against the catalog `catalog`.
    pub fn new(query: String, catalog: String) -> (r: Result<XmlaExecute, XmlaError>)
        ensures
            r matches Ok(x) && x.query@ == query@ && x.properties@ == seq![
                ("Catalog"@, catalog@),
            ],
    {
        let mut properties = XmlaProperties::new();
        proof {
            reveal_strlit("Catalog");
        }
        properties.add(String::from_str(XmlaProperties::CATALOG), catalog)?;
        assert(properties@ =~= seq![("Catalog"@, catalog@)]);
        Ok(XmlaExecute { query, properties })
    }
}

/// The XML text of an Execute request.
pub open spec fn execute_xml(query: Seq<char>, properties: Seq<(Seq<char>, Seq<char>)>) -> Seq<
    char,
> {
    start_tag_with_attribute("Execute"@, "xmlns"@, XMLA_NS@) + start_tag("Command"@)
        + text_element("Statement"@, query) + end_tag("Command"@) + list_xml(
        "Properties"@,
        "PropertyList"@,
        properties,
    ) + end_tag("Execute"@)
}

impl ToXml for XmlaExecute {
    open spec fn xml_text(&self) -> Seq<char> {
        execute_xml(self.query@, self.properties@)
    }

    fn to_xml(&self, out: &mut Vec<u8>) -> (r: Result<(), std::io::Error>) {
        write_start_tag_with_attribute(out, "Execute", "xmlns", XMLA_NS)?;
        let ghost t1 = start_tag_with_attribute("Execute"@, "xmlns"@, XMLA_NS@);
        write_start_tag(out, "Command")?;
        proof {
            lemma_encode_append(encode_utf8(t1), t1, start_tag("Command"@));
        }
        let ghost t2 = t1 + start_tag("Command"@);
        write_text_element(out, "Statement", self.query.as_str())?;
        proof {
            lemma_encode_append(encode_utf8(t2), t2, text_element("Statement"@, self.query@));
        }
        let ghost t3 = t2 + text_element("Statement"@, self.query@);
        write_end_tag(out, "Command")?;
        proof {
            lemma_encode_append(encode_utf8(t3), t3, end_tag("Command"@));
        }
        let ghost t4 = t3 + end_tag("Command"@);
        self.properties.to_xml(out)?;
        proof {
            lemma_encode_append(encode_utf8(t4), t4, self.properties.xml_text());
        }
        let ghost t5 = t4 + self.properties.xml_text();
        write_end_tag(out, "Execute")?;
        proof {
            lemma_encode_append(encode_utf8(t5), t5, end_tag("Execute"@));
        }
        assert(final(out)@ =~= old(out)@ + encode_utf8(self.xml_text()));
        Ok(())
    }
}

} // verus!
