use crate::connection::error::{XmlaError, XmlaErrorView};
use crate::dime::io::ByteReader;
use crate::dime::message::{
    message_writable, spec_read_message, spec_write_message, DimeMessage, DimeMessageView,
};
use crate::dime::options::DimeOptions;
use crate::xml::parse::{parse_xml, xml_document};
use crate::xml::tree::XmlElement;
use vstd::prelude::*;
use vstd::string::StringExecFns;
use vstd::utf8::{decode_utf8, encode_utf8, valid_utf8};

verus! {

/// The content type of every message the library sends.
pub const XML_CONTENT_TYPE: &'static str = "text/xml";

/// The text of an I/O error, as its `Display` implementation writes it.
#[verifier::external_body]
pub(crate) fn io_error_text(e: &std::io::Error) -> String {
    format!("{}", e)
}

/// Reads bytes that are expected to be UTF-8 as a string slice.
///
/// Calls `std::str::from_utf8`, whose documentation says that it succeeds
/// exactly on valid UTF-8 and that the slice then holds the characters that
/// the bytes encode; otherwise it returns the error that says where the bytes
/// stop being UTF-8.
#[verifier::external_body]
pub(crate) fn str_from_utf8(bytes: &[u8]) -> (r: Result<&str, std::str::Utf8Error>)
    ensures
        r is Ok <==> valid_utf8(bytes@),
        r matches Ok(s) ==> s@ == decode_utf8(bytes@),
{
    std::str::from_utf8(bytes)
}

/// Each character takes at most four bytes in UTF-8.
proof fn lemma_encode_utf8_len_bound(s: Seq<char>)
    ensures
        encode_utf8(s).len() <= 4 * s.len(),
    decreases s.len(),
{
    if s.len() > 0 {
        lemma_encode_utf8_len_bound(s.drop_first());
        assert(vstd::utf8::encode_scalar(s[0] as u32).len() <= 4);
    }
}

/// The message that carries an XML payload, with the given options.
pub open spec fn xml_message(options: DimeOptions, data: Seq<u8>) -> DimeMessageView {
    DimeMessageView { options: Some(options), content_type: XML_CONTENT_TYPE@, data }
}

/// Frames an XML payload as a DIME message with the given options.
pub fn frame_xml(options: DimeOptions, data: Vec<u8>) -> (r: Vec<u8>)
    ensures
        r@ == spec_write_message(xml_message(options, data@)),
{
    let message = DimeMessage {
        options: Some(options),
        content_type: String::from_str(XML_CONTENT_TYPE),
        data,
    };
    proof {
        reveal_strlit("text/xml");
        lemma_encode_utf8_len_bound(message@.content_type);
        assert(message_writable(message@));
    }
    let mut out: Vec<u8> = Vec::new();
    let _ = message.write_to(&mut out);
    assert(out@ =~= spec_write_message(message@));
    out
}

/// Reading the message at the start of a response.
pub open spec fn spec_read_response(bytes: Seq<u8>) -> Result<DimeMessageView, XmlaErrorView> {
    match spec_read_message(bytes) {
        Ok((m, _)) => Ok(m),
        Err(e) => Err(XmlaErrorView::Dime(e)),
    }
}

/// Reads the DIME message at the start of a response.
pub fn read_response(bytes: &[u8]) -> (r: Result<DimeMessage, XmlaError>)
    ensures
        match spec_read_response(bytes@) {
            Ok(m) => r matches Ok(x) && x@ == m,
            Err(e) => r matches Err(x) && x@ == e,
        },
{
    let mut reader = ByteReader::new(bytes);
    match DimeMessage::read_from(&mut reader) {
        Ok(m) => Ok(m),
        Err(e) => Err(XmlaError::Dime(e)),
    }
}

/// Reading a payload as the UTF-8 text of an XML document.
pub open spec fn spec_response_document(data: Seq<u8>) -> Result<XmlElement, XmlaErrorView> {
    if !valid_utf8(data) {
        Err(XmlaErrorView::Utf8)
    } else {
        match xml_document(decode_utf8(data)) {
            None => Err(XmlaErrorView::Xml),
            Some(d) => Ok(d),
        }
    }
}

/// Reads a payload as the UTF-8 text of an XML document.
pub fn response_document(data: &[u8]) -> (r: Result<XmlElement, XmlaError>)
    ensures
        match spec_response_document(data@) {
            Ok(d) => r matches Ok(x) && x == d,
            Err(e) => r matches Err(x) && x@ == e,
        },
{
    let text = match str_from_utf8(data) {
        Ok(t) => t,
        Err(e) => {
            return Err(XmlaError::Utf8(e));
        },
    };
    match parse_xml(text) {
        Ok(d) => Ok(d),
        Err(e) => Err(XmlaError::Xml(e)),
    }
}

} // verus!
