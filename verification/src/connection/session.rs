use crate::auth::confidentiality::{
    confidentiality_message, decrypt_ssas_message, encrypt_ssas_message, spec_encryption_block,
    join_all, parts_fit_blocks, spec_split_blocks, total_data_len, ConfidentialityErrorView,
};
use crate::connection::error::{XmlaError, XmlaErrorView};
use crate::connection::exchange::{
    frame_xml, io_error_text, str_from_utf8, read_response, response_document, spec_read_response,
    spec_response_document, xml_message,
};
use crate::connection::handshake::negotiated_options;
use crate::dime::error::DimeErrorView;
use crate::dime::message::{is_xpress_content_type, spec_write_message, content_type_is_xpress};
use crate::dime::options::{no_options, DimeOptions};
use crate::dime::xpress::{decompress, spec_decompress};
use crate::text::{spec_trim, trim};
use crate::xml::tree::{spec_find_descendant, spec_text};
use crate::xmla::dataset::{
    parse_execute_response, spec_parse_execute_response, DatasetView, XmlaDataset,
};
use crate::xmla::discover::{discover_xml, XmlaDiscover};
use crate::xmla::execute::{execute_xml, XmlaExecute};
use crate::xmla::props::XmlaProperties;
use crate::xmla::responses::{spec_discover_from_xml, XmlaDiscoverResponse};
use crate::xmla::restrictions::XmlaRestrictions;
use crate::xmla::soap::{
    body_first_child, soap_envelope, spec_body_first_child, ToSoap, XmlaOperationContent,
};
use vstd::prelude::*;
use vstd::string::StringExecFns;
use vstd::utf8::{decode_utf8, encode_utf8, valid_utf8};

verus! {

/// The SOAP message that a probe sends: an envelope with an empty body.
pub const PROBE_SOAP: &'static str = "<soap:Envelope xmlns:soap=\"http://schemas.xmlsoap.org/soap/envelope/\">\n          <soap:Body>\n          </soap:Body>\n        </soap:Envelope>";

/// The fault code with which Analysis Services answers an empty request.
pub const PROBE_FAULT_CODE: &'static str = "XMLAnalysisError.0xc10f000a";

/// `bytes` frame, negotiated, one encryption block whose data is as long as
/// the plaintext and whose signature takes 16 bytes.
pub open spec fn sealed_request(bytes: Seq<u8>, plaintext: Seq<u8>) -> bool {
    exists|data: Seq<u8>, token: Seq<u8>|
        #![trigger spec_encryption_block(data, token)]
        data.len() == plaintext.len() && token.len() == 16 && bytes == spec_write_message(
            xml_message(negotiated_options(), spec_encryption_block(data, token)),
        )
}

/// Seals a SOAP message and frames it as a negotiated DIME message.
pub fn seal_request(ntlm: &mut sspi::Ntlm, soap: &[u8]) -> (r: Result<Vec<u8>, XmlaError>)
    ensures
        soap@.len() > 0xffff ==> (r matches Err(e) && e@ == XmlaErrorView::ProtocolError(
            confidentiality_message(ConfidentialityErrorView::OutOfRange),
        )),
        r matches Ok(bytes) ==> sealed_request(bytes@, soap@),
        r matches Err(e) ==> e@ is ProtocolError,
{
    let block = match encrypt_ssas_message(ntlm, soap) {
        Ok(b) => b,
        Err(e) => {
            return Err(XmlaError::ProtocolError(e.message()));
        },
    };
    let mut options = DimeOptions::default();
    options.is_negotiated = true;
    let bytes = frame_xml(options, block);
    assert(sealed_request(bytes@, soap@));
    Ok(bytes)
}

/// The payload of a response: decompressed when its content type says
/// that it is compressed, as it is otherwise.
pub open spec fn spec_response_payload(plaintext: Seq<u8>, content_type: Seq<char>) -> Result<
    Seq<u8>,
    XmlaErrorView,
> {
    if is_xpress_content_type(content_type) {
        match spec_decompress(plaintext, content_type) {
            Ok(d) => Ok(d),
            Err(msg) => Err(XmlaErrorView::Dime(DimeErrorView::RecordFormatError(msg))),
        }
    } else {
        Ok(plaintext)
    }
}

/// The payload of a response: decompressed when its content type says
/// that it is compressed, as it is otherwise.
pub fn response_payload(plaintext: Vec<u8>, content_type: &str) -> (r: Result<Vec<u8>, XmlaError>)
    ensures
        match spec_response_payload(plaintext@, content_type@) {
            Ok(d) => r matches Ok(x) && x@ == d,
            Err(e) => r matches Err(x) && x@ == e,
        },
{
    if content_type_is_xpress(content_type) {
        match decompress(plaintext.as_slice(), content_type) {
            Ok(d) => Ok(d),
            Err(e) => Err(XmlaError::Dime(e)),
        }
    } else {
        Ok(plaintext)
    }
}

/// Reading an unsealed response payload as UTF-8 text.
pub open spec fn spec_payload_text(payload: Seq<u8>) -> Result<Seq<char>, XmlaErrorView> {
    if valid_utf8(payload) {
        Ok(decode_utf8(payload))
    } else {
        Err(XmlaErrorView::Utf8)
    }
}

/// Reads an unsealed response payload as UTF-8 text.
fn payload_text(payload: Vec<u8>) -> (r: Result<String, XmlaError>)
    ensures
        match spec_payload_text(payload@) {
            Ok(t) => r matches Ok(x) && x@ == t,
            Err(e) => r matches Err(x) && x@ == e,
        },
{
    match str_from_utf8(payload.as_slice()) {
        Ok(t) => Ok(String::from_str(t)),
        Err(e) => Err(XmlaError::Utf8(e)),
    }
}

/// Reading the unsealed answer to a Discover request: the rowset is read
/// from whatever element the SOAP body holds first.
pub open spec fn spec_discover_plaintext(plaintext: Seq<u8>, content_type: Seq<char>) -> Result<
    Seq<Seq<(Seq<char>, Seq<char>)>>,
    XmlaErrorView,
> {
    match spec_response_payload(plaintext, content_type) {
        Err(e) => Err(e),
        Ok(d) => match spec_response_document(d) {
            Err(e) => Err(e),
            Ok(document) => match spec_body_first_child(document) {
                Err(e) => Err(e),
                Ok(child) => spec_discover_from_xml(child),
            },
        },
    }
}

/// Reading the unsealed answer to an Execute request.
pub open spec fn spec_execute_plaintext(plaintext: Seq<u8>, content_type: Seq<char>) -> Result<
    DatasetView,
    XmlaErrorView,
> {
    match spec_response_payload(plaintext, content_type) {
        Err(e) => Err(e),
        Ok(d) => match spec_payload_text(d) {
            Err(e) => Err(e),
            Ok(t) => spec_parse_execute_response(t),
        },
    }
}

/// Reads the unsealed answer to a Discover request.
pub fn discover_from_plaintext(plaintext: Vec<u8>, content_type: &str) -> (r: Result<
    XmlaDiscoverResponse,
    XmlaError,
>)
    ensures
        match spec_discover_plaintext(plaintext@, content_type@) {
            Ok(rows) => r matches Ok(x) && x@ == rows,
            Err(e) => r matches Err(x) && x@ == e,
        },
{
    let payload = response_payload(plaintext, content_type)?;
    let document = response_document(payload.as_slice())?;
    let child = body_first_child(&document)?;
    XmlaDiscoverResponse::from_xml(child)
}

/// Reads the unsealed answer to an Execute request.
pub fn execute_from_plaintext(plaintext: Vec<u8>, content_type: &str) -> (r: Result<
    XmlaDataset,
    XmlaError,
>)
    ensures
        match spec_execute_plaintext(plaintext@, content_type@) {
            Ok(d) => r matches Ok(x) && x@ == d,
            Err(e) => r matches Err(x) && x@ == e,
        },
{
    let payload = response_payload(plaintext, content_type)?;
    let text = payload_text(payload)?;
    parse_execute_response(text.as_str())
}

/// The Content property that every request of a session sets.
pub open spec fn data_content() -> Seq<(Seq<char>, Seq<char>)> {
    seq![("Content"@, "Data"@)]
}

/// The SOAP text of the Discover request that a session sends.
pub open spec fn discover_soap(
    request_type: Seq<char>,
    restrictions: Seq<(Seq<char>, Seq<char>)>,
) -> Seq<u8> {
    encode_utf8(soap_envelope(discover_xml(request_type, restrictions, data_content())))
}

/// The SOAP text of the Execute request that a session sends.
pub open spec fn execute_soap(query: Seq<char>, catalog: Seq<char>) -> Seq<u8> {
    encode_utf8(
        soap_envelope(execute_xml(query, seq![("Catalog"@, catalog)].push(("Content"@, "Data"@)))),
    )
}

/// Unseals the payload of a response to a sealed request: the DIME message
/// is read and its data unsealed, block by block.
fn unseal_response(ntlm: &mut sspi::Ntlm, response: &[u8]) -> (r: Result<
    (Vec<u8>, String),
    XmlaError,
>)
    ensures
        match spec_read_response(response@) {
            Err(e) => r matches Err(x) && x@ == e,
            Ok(m) => match r {
                Ok((p, ct)) => ct@ == m.content_type && (spec_split_blocks(m.data) matches Ok(blocks)
                    && p@.len() == total_data_len(blocks) && exists|parts: Seq<Seq<u8>>|
                    #![trigger join_all(parts)]
                    parts_fit_blocks(parts, blocks) && p@ == join_all(parts)),
                Err(x) => x@ is ProtocolError,
            },
        },
        match spec_read_response(response@) {
            Ok(m) => spec_split_blocks(m.data) is Err ==> r is Err,
            Err(_) => true,
        },
{
    let message = read_response(response)?;
    let plaintext = match decrypt_ssas_message(ntlm, message.data.as_slice()) {
        Ok(p) => p,
        Err(e) => {
            return Err(XmlaError::ProtocolError(e.message()));
        },
    };
    Ok((plaintext, message.content_type))
}

/// Builds the sealed Discover request of a session: the rowset, its
/// restrictions, and the Content property set to Data.
pub fn discover_request(
    ntlm: &mut sspi::Ntlm,
    request_type: String,
    restrictions: &XmlaRestrictions,
) -> (r: Result<Vec<u8>, XmlaError>)
    ensures
        r matches Ok(bytes) ==> sealed_request(bytes@, discover_soap(request_type@, restrictions@)),
        discover_soap(request_type@, restrictions@).len() > 0xffff ==> r is Err,
        r matches Err(e) ==> e@ is ProtocolError,
{
    let ghost rt = request_type@;
    let mut discover = XmlaDiscover::new(request_type);
    discover.restrictions = restrictions.duplicate();
    proof {
        reveal_strlit("Content");
        reveal_strlit("Data");
    }
    let content = String::from_str(XmlaOperationContent::Data.as_str());
    match discover.properties.add(String::from_str(XmlaProperties::CONTENT), content) {
        Ok(()) => {},
        Err(e) => {
            return Err(e);
        },
    }
    assert(discover.properties@ =~= data_content());
    let soap = match discover.to_soap() {
        Ok(s) => s,
        Err(e) => {
            return Err(XmlaError::ProtocolError(io_error_text(&e)));
        },
    };
    assert(soap@ == discover_soap(rt, restrictions@));
    seal_request(ntlm, soap.as_slice())
}

/// Builds the sealed Execute request of a session: the statement, the
/// catalog, and the Content property set to Data.
pub fn execute_request(ntlm: &mut sspi::Ntlm, query: String, catalog: String) -> (r: Result<
    Vec<u8>,
    XmlaError,
>)
    ensures
        r matches Ok(bytes) ==> sealed_request(bytes@, execute_soap(query@, catalog@)),
        execute_soap(query@, catalog@).len() > 0xffff ==> r is Err,
        r matches Err(e) ==> e@ is ProtocolError,
{
    let ghost q = query@;
    let ghost c = catalog@;
    let mut execute = match XmlaExecute::new(query, catalog) {
        Ok(x) => x,
        Err(e) => {
            return Err(e);
        },
    };
    proof {
        reveal_strlit("Content");
        reveal_strlit("Data");
        reveal_strlit("Catalog");
        assert("Content"@[1] != "Catalog"@[1]);
        assert(crate::xmla::values_map::spec_lookup_from(execute.properties@, "Content"@, 1) is None);
    }
    let content = String::from_str(XmlaOperationContent::Data.as_str());
    match execute.properties.add(String::from_str(XmlaProperties::CONTENT), content) {
        Ok(()) => {},
        Err(e) => {
            return Err(e);
        },
    }
    assert(execute.properties@ =~= seq![("Catalog"@, c)].push(("Content"@, "Data"@)));
    let soap = match execute.to_soap() {
        Ok(s) => s,
        Err(e) => {
            return Err(XmlaError::ProtocolError(io_error_text(&e)));
        },
    };
    assert(soap@ == execute_soap(q, c));
    seal_request(ntlm, soap.as_slice())
}

/// Reads the sealed answer to a Discover request: the message is read, its
/// data unsealed, decompressed where its content type says so, and parsed
/// as a rowset.
pub fn discover_response(ntlm: &mut sspi::Ntlm, response: &[u8]) -> (r: Result<
    XmlaDiscoverResponse,
    XmlaError,
>)
    ensures
        match spec_read_response(response@) {
            Err(e) => r matches Err(x) && x@ == e,
            Ok(m) => match r {
                Ok(x) => spec_split_blocks(m.data) matches Ok(blocks) && exists|parts: Seq<Seq<u8>>|
                    #![trigger join_all(parts)]
                    parts_fit_blocks(parts, blocks) && join_all(parts).len() == total_data_len(
                        blocks,
                    ) && spec_discover_plaintext(join_all(parts), m.content_type) == Ok::<
                        Seq<Seq<(Seq<char>, Seq<char>)>>,
                        XmlaErrorView,
                    >(x@),
                Err(x) => x@ is ProtocolError || exists|p: Seq<u8>|
                    #![trigger spec_discover_plaintext(p, m.content_type)]
                    spec_discover_plaintext(p, m.content_type) == Err::<
                        Seq<Seq<(Seq<char>, Seq<char>)>>,
                        XmlaErrorView,
                    >(x@),
            },
        },
{
    let (plaintext, content_type) = unseal_response(ntlm, response)?;
    discover_from_plaintext(plaintext, content_type.as_str())
}

/// Reads the sealed answer to an Execute request: the message is read, its
/// data unsealed, decompressed where its content type says so, and parsed
/// as a dataset.
pub fn execute_response(ntlm: &mut sspi::Ntlm, response: &[u8]) -> (r: Result<
    XmlaDataset,
    XmlaError,
>)
    ensures
        match spec_read_response(response@) {
            Err(e) => r matches Err(x) && x@ == e,
            Ok(m) => match r {
                Ok(x) => spec_split_blocks(m.data) matches Ok(blocks) && exists|parts: Seq<Seq<u8>>|
                    #![trigger join_all(parts)]
                    parts_fit_blocks(parts, blocks) && join_all(parts).len() == total_data_len(
                        blocks,
                    ) && spec_execute_plaintext(join_all(parts), m.content_type) == Ok::<
                        DatasetView,
                        XmlaErrorView,
                    >(x@),
                Err(x) => x@ is ProtocolError || exists|p: Seq<u8>|
                    #![trigger spec_execute_plaintext(p, m.content_type)]
                    spec_execute_plaintext(p, m.content_type) == Err::<DatasetView, XmlaErrorView>(
                        x@,
                    ),
            },
        },
{
    let (plaintext, content_type) = unseal_response(ntlm, response)?;
    execute_from_plaintext(plaintext, content_type.as_str())
}

/// The probe request: an empty SOAP envelope, without options set.
pub fn probe_request() -> (r: Vec<u8>)
    ensures
        r@ == spec_write_message(xml_message(no_options(), encode_utf8(PROBE_SOAP@))),
{
    let soap = vstd::slice::slice_to_vec(PROBE_SOAP.as_bytes());
    frame_xml(DimeOptions::default(), soap)
}

/// Checking the answer to a probe: Analysis Services answers an empty
/// request with a fault whose code, trimmed, is [`PROBE_FAULT_CODE`]; any
/// other fault code is the error, and an answer without one is unexpected.
pub open spec fn spec_probe_check(response: Seq<u8>) -> Result<(), XmlaErrorView> {
    match spec_read_response(response) {
        Err(e) => Err(e),
        Ok(m) => match spec_response_document(m.data) {
            Err(e) => Err(e),
            Ok(document) => match spec_find_descendant(document, None, Some("faultcode"@)) {
                Some(f) => match spec_text(f) {
                    Some(t) => if spec_trim(t) == PROBE_FAULT_CODE@ {
                        Ok(())
                    } else {
                        Err(XmlaErrorView::ProtocolError(spec_trim(t)))
                    },
                    None => Err(XmlaErrorView::ProtocolError("Unexpected response message"@)),
                },
                None => Err(XmlaErrorView::ProtocolError("Unexpected response message"@)),
            },
        },
    }
}

/// Checks the answer to a probe.
pub fn probe_response(response: &[u8]) -> (r: Result<(), XmlaError>)
    ensures
        match spec_probe_check(response@) {
            Ok(_) => r is Ok,
            Err(e) => r matches Err(x) && x@ == e,
        },
{
    let message = read_response(response)?;
    let document = response_document(message.data.as_slice())?;
    let unexpected = "Unexpected response message";
    let fault = match document.find_descendant(None, Some("faultcode")) {
        Some(f) => f,
        None => {
            return Err(XmlaError::ProtocolError(String::from_str(unexpected)));
        },
    };
    let text = match fault.text() {
        Some(t) => t,
        None => {
            return Err(XmlaError::ProtocolError(String::from_str(unexpected)));
        },
    };
    let code = trim(text.as_str());
    if crate::xml::tree::str_eq(code, PROBE_FAULT_CODE) {
        Ok(())
    } else {
        Err(XmlaError::ProtocolError(String::from_str(code)))
    }
}

} // verus!
