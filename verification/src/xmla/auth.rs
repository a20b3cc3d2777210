use crate::xml::writer::{
    end_tag, start_tag_with_attribute, write_end_tag, write_start_tag_with_attribute,
};
use crate::xmla::soap::{lemma_encode_append, text_element, write_text_element, ToXml};
use vstd::prelude::*;
use vstd::utf8::encode_utf8;

verus! {

/// Namespace of the Analysis Services extensions to XMLA.
pub const SSAS_NS: &'static str = "http://schemas.microsoft.com/analysisservices/2003/ext";

/// An Authenticate request that carries one SSPI token, Base64-encoded.
pub struct Authenticate {
    pub sspi_handshake: String,
}

/// The XML text of an Authenticate request that carries a handshake text.
pub open spec fn authenticate_xml(handshake: Seq<char>) -> Seq<char> {
    start_tag_with_attribute("Authenticate"@, "xmlns"@, SSAS_NS@) + text_element(
        "SspiHandshake"@,
        handshake,
    ) + end_tag("Authenticate"@)
}

impl ToXml for Authenticate {
    open spec fn xml_text(&self) -> Seq<char> {
        authenticate_xml(self.sspi_handshake@)
    }

    fn to_xml(&self, out: &mut Vec<u8>) -> (r: Result<(), std::io::Error>) {
        write_start_tag_with_attribute(out, "Authenticate", "xmlns", SSAS_NS)?;
        let ghost t1 = start_tag_with_attribute("Authenticate"@, "xmlns"@, SSAS_NS@);
        write_text_element(out, "SspiHandshake", self.sspi_handshake.as_str())?;
        proof {
            lemma_encode_append(
                encode_utf8(t1),
                t1,
                text_element("SspiHandshake"@, self.sspi_handshake@),
            );
        }
        let ghost t2 = t1 + text_element("SspiHandshake"@, self.sspi_handshake@);
        write_end_tag(out, "Authenticate")?;
        proof {
            lemma_encode_append(encode_utf8(t2), t2, end_tag("Authenticate"@));
        }
        assert(final(out)@ =~= old(out)@ + encode_utf8(self.xml_text()));
        Ok(())
    }
}

} // verus!
