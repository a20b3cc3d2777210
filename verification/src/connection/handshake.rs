use crate::auth::ntlm::{
    acquire_credentials, ntlm_identity_buffers, ntlm_step, parse_username,
    spec_username_accepted,
};
use crate::connection::error::{XmlaError, XmlaErrorView};
use crate::connection::exchange::{
    frame_xml, io_error_text, read_response, response_document, spec_read_response,
    spec_response_document, xml_message,
};
use crate::connection::options::NtlmCredentials;
use crate::dime::message::{spec_write_message, DimeMessageView};
use crate::dime::options::{no_options, DimeOptions};
use crate::text::{spec_trim, strip_ascii_whitespace, trim, without_ascii_whitespace};
use crate::xml::tree::{spec_find_descendant, spec_text, XmlElement};
use crate::xmla::auth::{authenticate_xml, Authenticate, SSAS_NS};
use crate::xmla::soap::{soap_envelope, ToSoap};
use base64::engine::general_purpose::STANDARD;
use base64::Engine;
use vstd::prelude::*;
use vstd::string::StringExecFns;
use vstd::utf8::encode_utf8;

verus! {

/// The Base64 text of a byte string, with the standard alphabet and
/// padding, as `base64::engine::general_purpose::STANDARD` encodes it.
pub uninterp spec fn base64_encoding(bytes: Seq<u8>) -> Seq<char>;

/// The bytes that a Base64 text decodes to with the standard alphabet and
/// padding, as `STANDARD` decodes it; nothing where it refuses the text.
pub uninterp spec fn base64_decoding(text: Seq<u8>) -> Option<Seq<u8>>;

/// The length of a byte slice, which the standard library never lets
/// exceed `isize::MAX` bytes.
#[verifier::external_body]
fn byte_len(bytes: &[u8]) -> (r: usize)
    ensures
        r == bytes@.len(),
        r <= isize::MAX,
{
    bytes.len()
}

/// Encodes bytes as Base64 with `STANDARD.encode`.
///
/// The length bound keeps base64's computation of the output length from
/// overflowing, where it would panic.
#[verifier::external_body]
fn encode_base64(bytes: &[u8]) -> (r: String)
    requires
        bytes@.len() <= isize::MAX,
    ensures
        r@ == base64_encoding(bytes@),
{
    STANDARD.encode(bytes)
}

/// Decodes a Base64 text with `STANDARD.decode`.
///
/// The length bound keeps base64's estimate of the output length from
/// overflowing.
#[verifier::external_body]
fn decode_base64(text: &[u8]) -> (r: Option<Vec<u8>>)
    requires
        text@.len() <= isize::MAX,
    ensures
        match r {
            Some(v) => base64_decoding(text@) == Some(v@),
            None => base64_decoding(text@) is None,
        },
{
    STANDARD.decode(text).ok()
}

/// Options with only the negotiation flag set.
pub open spec fn negotiated_options() -> DimeOptions {
    DimeOptions { is_negotiated: true, ..no_options() }
}

/// The message that carries an Authenticate request with a token.
pub open spec fn authenticate_message(token: Seq<u8>, options: DimeOptions) -> DimeMessageView {
    xml_message(options, encode_utf8(soap_envelope(authenticate_xml(base64_encoding(token)))))
}

/// The user name that NTLM is given: the domain, a backslash, the user.
pub open spec fn qualified_name(domain: Seq<char>, username: Seq<char>) -> Seq<char> {
    domain + "\\"@ + username
}

/// The error for a response without the handshake that it must carry.
pub open spec fn handshake_missing() -> XmlaErrorView {
    XmlaErrorView::ProtocolError("SspiHandshake missing from response"@)
}

/// The first SspiHandshake element of a document.
pub open spec fn spec_handshake_element(document: XmlElement) -> Option<XmlElement> {
    spec_find_descendant(document, Some(SSAS_NS@), Some("SspiHandshake"@))
}

/// Reading the server's challenge from its answer to the first
/// Authenticate request: the Base64 text of the SspiHandshake element,
/// trimmed, which must not be empty, without its inner ASCII whitespace,
/// decoded.
pub open spec fn spec_challenge_token(response: Seq<u8>) -> Result<Seq<u8>, XmlaErrorView> {
    match spec_read_response(response) {
        Err(e) => Err(e),
        Ok(m) => match spec_response_document(m.data) {
            Err(e) => Err(e),
            Ok(document) => match spec_handshake_element(document) {
                None => Err(handshake_missing()),
                Some(h) => match spec_text(h) {
                    None => Err(handshake_missing()),
                    Some(t) => if spec_trim(t).len() == 0 {
                        Err(handshake_missing())
                    } else {
                        match base64_decoding(
                            encode_utf8(without_ascii_whitespace(spec_trim(t))),
                        ) {
                            None => Err(
                                XmlaErrorView::ProtocolError("Invalid SspiHandshake Base64"@),
                            ),
                            Some(token) => Ok(token),
                        }
                    },
                },
            },
        },
    }
}

/// Checking the server's answer to the last Authenticate request: it must
/// carry an SspiHandshake element, and that element must be empty, its
/// text trimmed.
pub open spec fn spec_final_check(response: Seq<u8>) -> Result<(), XmlaErrorView> {
    match spec_read_response(response) {
        Err(e) => Err(e),
        Ok(m) => match spec_response_document(m.data) {
            Err(e) => Err(e),
            Ok(document) => match spec_handshake_element(document) {
                None => Err(handshake_missing()),
                Some(h) => {
                    let t = match spec_text(h) {
                        Some(t) => t,
                        None => Seq::empty(),
                    };
                    if spec_trim(t).len() == 0 {
                        Ok(())
                    } else {
                        Err(XmlaErrorView::ProtocolError("SspiHandshake should be empty"@))
                    }
                },
            },
        },
    }
}

/// Reads the server's challenge token from its answer to the first
/// Authenticate request.
pub fn challenge_token(response: &[u8]) -> (r: Result<Vec<u8>, XmlaError>)
    ensures
        match spec_challenge_token(response@) {
            Ok(t) => r matches Ok(x) && x@ == t,
            Err(e) => r matches Err(x) && x@ == e,
        },
{
    let message = read_response(response)?;
    let document = response_document(message.data.as_slice())?;
    let missing = "SspiHandshake missing from response";
    let element = match document.find_descendant(Some(SSAS_NS), Some("SspiHandshake")) {
        Some(h) => h,
        None => {
            return Err(XmlaError::ProtocolError(String::from_str(missing)));
        },
    };
    let text = match element.text() {
        Some(t) => t,
        None => {
            return Err(XmlaError::ProtocolError(String::from_str(missing)));
        },
    };
    let trimmed = trim(text.as_str());
    if trimmed.unicode_len() == 0 {
        return Err(XmlaError::ProtocolError(String::from_str(missing)));
    }
    let compact = strip_ascii_whitespace(trimmed);
    let bytes = compact.as_str().as_bytes();
    let _ = byte_len(bytes);
    match decode_base64(bytes) {
        Some(token) => Ok(token),
        None => Err(XmlaError::ProtocolError(String::from_str("Invalid SspiHandshake Base64"))),
    }
}

/// Checks the server's answer to the last Authenticate request.
pub fn final_check(response: &[u8]) -> (r: Result<(), XmlaError>)
    ensures
        match spec_final_check(response@) {
            Ok(_) => r is Ok,
            Err(e) => r matches Err(x) && x@ == e,
        },
{
    let message = read_response(response)?;
    let document = response_document(message.data.as_slice())?;
    let element = match document.find_descendant(Some(SSAS_NS), Some("SspiHandshake")) {
        Some(h) => h,
        None => {
            return Err(
                XmlaError::ProtocolError(String::from_str("SspiHandshake missing from response")),
            );
        },
    };
    let empty = String::new();
    let text = match element.text() {
        Some(t) => t,
        None => &empty,
    };
    if trim(text.as_str()).unicode_len() == 0 {
        Ok(())
    } else {
        Err(XmlaError::ProtocolError(String::from_str("SspiHandshake should be empty")))
    }
}

/// The DIME message that carries an Authenticate request with a token,
/// Base64-encoded.
pub fn authenticate_request(token: &[u8], options: DimeOptions) -> (r: Result<
    Vec<u8>,
    std::io::Error,
>)
    ensures
        r is Ok,
        r matches Ok(bytes) ==> bytes@ == spec_write_message(authenticate_message(token@, options)),
{
    let _ = byte_len(token);
    let request = Authenticate { sspi_handshake: encode_base64(token) };
    let soap = request.to_soap()?;
    Ok(frame_xml(options, soap))
}

/// An NTLM handshake under way: the security context and the user's
/// identity that its credentials handle holds.
pub struct NtlmHandshake {
    ntlm: sspi::Ntlm,
    credentials: sspi::AuthIdentityBuffers,
}

impl NtlmHandshake {
    /// The identity that the handshake's credentials handle holds.
    pub closed spec fn credentials(&self) -> sspi::AuthIdentityBuffers {
        self.credentials
    }

    /// Starts the handshake for a user: the user name is checked, the
    /// credentials acquired, and the negotiate token put in the first
    /// Authenticate request, which is returned to be sent.
    pub fn start(credentials: NtlmCredentials) -> (r: Result<(NtlmHandshake, Vec<u8>), XmlaError>)
        ensures
            !spec_username_accepted(qualified_name(credentials.domain@, credentials.username@)) ==> (
            r matches Err(e) && e@ == XmlaErrorView::InvalidUsername("mixed username format"@)),
            r matches Ok((_, request)) ==> exists|token: Seq<u8>|
                #![trigger authenticate_message(token, no_options())]
                request@ == spec_write_message(authenticate_message(token, no_options())),
            r matches Ok((h, _)) ==> h.credentials() == ntlm_identity_buffers(
                qualified_name(credentials.domain@, credentials.username@),
                credentials.password@,
            ),
            r matches Err(e) ==> e@ is Sspi || e@ is SerializationError || (e@ is InvalidUsername
                && !spec_username_accepted(qualified_name(credentials.domain@, credentials.username@))),
    {
        let mut name = credentials.domain.clone();
        name.append("\\");
        name.append(credentials.username.as_str());
        proof {
            reveal_strlit("\\");
        }
        assert(name@ == qualified_name(credentials.domain@, credentials.username@));
        match parse_username(name.as_str()) {
            Ok(_) => {},
            Err(m) => {
                return Err(XmlaError::InvalidUsername(m));
            },
        }
        let mut ntlm = sspi::Ntlm::new();
        let handle = match acquire_credentials(&mut ntlm, name.as_str(), credentials.password.as_str()) {
            Ok(Some(h)) => h,
            Ok(None) => {
                proof {
                    assert(false);
                }
                return Err(XmlaError::InvalidUsername(String::new()));
            },
            Err(e) => {
                return Err(XmlaError::Sspi(e));
            },
        };
        let empty: Vec<u8> = Vec::new();
        let (token, _status) = match ntlm_step(&mut ntlm, &handle, empty.as_slice()) {
            Ok(step) => step,
            Err(e) => {
                return Err(XmlaError::Sspi(e));
            },
        };
        let options = DimeOptions::default();
        let request = match authenticate_request(token.as_slice(), options) {
            Ok(bytes) => bytes,
            Err(e) => {
                return Err(XmlaError::SerializationError(io_error_text(&e)));
            },
        };
        assert(request@ == spec_write_message(authenticate_message(token@, no_options())));
        Ok((NtlmHandshake { ntlm, credentials: handle }, request))
    }

    /// Answers the server's challenge: its token is read from the response
    /// and handed to the security context, whose answer is put in the
    /// second Authenticate request, negotiated, which is returned to be
    /// sent.
    pub fn answer_challenge(&mut self, response: &[u8]) -> (r: Result<Vec<u8>, XmlaError>)
        ensures
            final(self).credentials() == old(self).credentials(),
            match spec_challenge_token(response@) {
                Err(e) => r matches Err(x) && x@ == e,
                Ok(_) => match r {
                    Ok(request) => exists|token: Seq<u8>|
                        #![trigger authenticate_message(token, negotiated_options())]
                        request@ == spec_write_message(
                            authenticate_message(token, negotiated_options()),
                        ),
                    Err(e) => e@ is Sspi || e@ is ProtocolError,
                },
            },
    {
        let challenge = challenge_token(response)?;
        let (token, _status) = match ntlm_step(
            &mut self.ntlm,
            &self.credentials,
            challenge.as_slice(),
        ) {
            Ok(step) => step,
            Err(e) => {
                return Err(XmlaError::Sspi(e));
            },
        };
        let mut options = DimeOptions::default();
        options.is_negotiated = true;
        match authenticate_request(token.as_slice(), options) {
            Ok(bytes) => {
                assert(bytes@ == spec_write_message(
                    authenticate_message(token@, negotiated_options()),
                ));
                Ok(bytes)
            },
            Err(e) => Err(XmlaError::ProtocolError(io_error_text(&e))),
        }
    }

    /// Ends the handshake on the server's last answer, which must carry an
    /// empty handshake; the established security context is returned.
    pub fn finish(self, response: &[u8]) -> (r: Result<sspi::Ntlm, XmlaError>)
        ensures
            match spec_final_check(response@) {
                Ok(_) => r is Ok,
                Err(e) => r matches Err(x) && x@ == e,
            },
    {
        final_check(response)?;
        Ok(self.ntlm)
    }
}

} // verus!
