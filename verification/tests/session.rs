use base64::engine::general_purpose::STANDARD;
use base64::Engine;
use sspi::{
    AcquireCredentialsHandleResult, AuthIdentity, AuthIdentityBuffers, BufferType, CredentialUse,
    DataRepresentation, EncryptionFlags, Ntlm, Secret, SecurityBuffer, SecurityBufferRef,
    ServerRequestFlags, Sspi, SspiImpl, Username,
};
use xmla_ssas_rs::auth::confidentiality::{
    decrypt_ssas_message, encrypt_ssas_message, encryption_block, next_block,
};
use xmla_ssas_rs::connection::error::XmlaError;
use xmla_ssas_rs::connection::exchange::{frame_xml, read_response};
use xmla_ssas_rs::connection::handshake::NtlmHandshake;
use xmla_ssas_rs::connection::options::NtlmCredentials;
use xmla_ssas_rs::connection::session::{
    discover_request, discover_response, execute_request, execute_response,
};
use xmla_ssas_rs::dime::options::DimeOptions;
use xmla_ssas_rs::xmla::restrictions::XmlaRestrictions;

type ServerHandle = AcquireCredentialsHandleResult<Option<AuthIdentityBuffers>>;

fn credentials() -> NtlmCredentials {
    NtlmCredentials {
        domain: String::from("EXAMPLE"),
        username: String::from("analyst"),
        password: String::from("s3cret"),
    }
}

fn server() -> (Ntlm, ServerHandle) {
    let identity = AuthIdentity {
        username: Username::parse("EXAMPLE\\analyst").unwrap(),
        password: Secret::from(String::from("s3cret")),
    };
    let mut server = Ntlm::new();
    let handle = server
        .acquire_credentials_handle()
        .with_credential_use(CredentialUse::Inbound)
        .with_auth_data(&identity)
        .execute(&mut server)
        .unwrap();
    (server, handle)
}

fn accept(server: &mut Ntlm, handle: &mut ServerHandle, token: Vec<u8>) -> Vec<u8> {
    let mut input = [SecurityBuffer::new(token, BufferType::Token)];
    let mut output = [SecurityBuffer::new(Vec::new(), BufferType::Token)];
    let builder = server
        .accept_security_context()
        .with_credentials_handle(&mut handle.credentials_handle)
        .with_context_requirements(ServerRequestFlags::empty())
        .with_target_data_representation(DataRepresentation::Native)
        .with_input(&mut input)
        .with_output(&mut output);
    server
        .accept_security_context_impl(builder)
        .unwrap()
        .resolve_to_result()
        .unwrap();
    std::mem::take(&mut output[0].buffer)
}

fn handshake_of(request: &[u8]) -> Vec<u8> {
    let message = read_response(request).unwrap();
    let text = String::from_utf8(message.data).unwrap();
    let start = text.find("<SspiHandshake>").unwrap() + "<SspiHandshake>".len();
    let end = text.find("</SspiHandshake>").unwrap();
    STANDARD.decode(&text[start..end]).unwrap()
}

fn handshake_answer(text: &str) -> Vec<u8> {
    let soap = format!(
        "<soap:Envelope xmlns:soap=\"http://schemas.xmlsoap.org/soap/envelope/\"><soap:Body><Authenticate xmlns=\"http://schemas.microsoft.com/analysisservices/2003/ext\"><SspiHandshake>{}</SspiHandshake></Authenticate></soap:Body></soap:Envelope>",
        text
    );
    frame_xml(DimeOptions::default(), soap.into_bytes())
}

fn negotiated() -> DimeOptions {
    DimeOptions {
        is_negotiated: true,
        ..DimeOptions::default()
    }
}

/// Runs the whole handshake against an sspi server; returns both contexts.
fn authenticated() -> (Ntlm, Ntlm) {
    let (mut server, mut handle) = server();
    let (mut handshake, request) = NtlmHandshake::start(credentials()).unwrap();
    let challenge = accept(&mut server, &mut handle, handshake_of(&request));
    let request = handshake
        .answer_challenge(&handshake_answer(&STANDARD.encode(&challenge)))
        .unwrap();
    let message = read_response(&request).unwrap();
    assert_eq!(message.options, Some(negotiated()));
    accept(&mut server, &mut handle, handshake_of(&request));
    let client = handshake.finish(&handshake_answer("")).unwrap();
    (client, server)
}

/// Runs the handshake with the given password against a server that knows
/// the right one; returns what the server's final check gives.
fn server_verdict(password: &str) -> sspi::Result<sspi::SecurityStatus> {
    let (mut server, mut handle) = server();
    let mut given = credentials();
    given.password = String::from(password);
    let (mut handshake, request) = NtlmHandshake::start(given).unwrap();
    let challenge = accept(&mut server, &mut handle, handshake_of(&request));
    let request = handshake
        .answer_challenge(&handshake_answer(&STANDARD.encode(&challenge)))
        .unwrap();
    let mut input = [SecurityBuffer::new(handshake_of(&request), BufferType::Token)];
    let mut output = [SecurityBuffer::new(Vec::new(), BufferType::Token)];
    let builder = server
        .accept_security_context()
        .with_credentials_handle(&mut handle.credentials_handle)
        .with_context_requirements(ServerRequestFlags::empty())
        .with_target_data_representation(DataRepresentation::Native)
        .with_input(&mut input)
        .with_output(&mut output);
    server
        .accept_security_context_impl(builder)
        .and_then(|mut generator| generator.resolve_to_result())
        .and_then(|_| server.complete_auth_token(&mut []))
}

#[test]
fn handshake_logs_in_with_the_given_password() {
    assert!(server_verdict("s3cret").is_ok());
    assert!(server_verdict("not-the-password").is_err());
}

fn server_unseal(server: &mut Ntlm, block: &[u8]) -> Vec<u8> {
    let data_len = u16::from_le_bytes([block[0], block[1]]) as usize;
    let token_len = u16::from_le_bytes([block[2], block[3]]) as usize;
    assert_eq!(block.len(), 4 + data_len + token_len);
    let mut data = block[4..4 + data_len].to_vec();
    let mut token = block[4 + data_len..].to_vec();
    let mut buffers = [
        SecurityBufferRef::token_buf(&mut token),
        SecurityBufferRef::data_buf(&mut data),
    ];
    server.decrypt_message(&mut buffers).unwrap();
    data
}

fn server_seal(server: &mut Ntlm, plaintext: &[u8]) -> Vec<u8> {
    let mut data = plaintext.to_vec();
    let mut token = vec![0_u8; 16];
    let mut buffers = [
        SecurityBufferRef::token_buf(&mut token),
        SecurityBufferRef::data_buf(&mut data),
    ];
    server
        .encrypt_message(EncryptionFlags::empty(), &mut buffers)
        .unwrap();
    encryption_block(&data, &token)
}

#[test]
fn handshake_then_execute_against_an_sspi_server() {
    let (mut client, mut server) = authenticated();

    let request = execute_request(
        &mut client,
        String::from("SELECT [Measures].[Sales Amount] ON COLUMNS FROM [Adventure Works]"),
        String::from("Adventure Works DW"),
    )
    .unwrap();
    let message = read_response(&request).unwrap();
    assert_eq!(message.options, Some(negotiated()));
    let soap = String::from_utf8(server_unseal(&mut server, &message.data)).unwrap();
    assert!(soap.contains("<Statement>SELECT [Measures].[Sales Amount] ON COLUMNS FROM [Adventure Works]</Statement>"));
    assert!(soap.contains("<PropertyList><Catalog>Adventure Works DW</Catalog><Content>Data</Content></PropertyList>"));

    let answer = "<soap:Envelope xmlns:soap=\"http://schemas.xmlsoap.org/soap/envelope/\"><soap:Body><ExecuteResponse xmlns=\"urn:schemas-microsoft-com:xml-analysis\"><return><root xmlns=\"urn:schemas-microsoft-com:xml-analysis:mddataset\"><Axes><Axis name=\"Axis0\"><Tuples><Tuple><Member Hierarchy=\"[Measures]\"><UName>[Measures].[Sales Amount]</UName><Caption>Sales Amount</Caption><LName>[Measures].[MeasuresLevel]</LName><LNum>0</LNum><DisplayInfo>0</DisplayInfo></Member></Tuple></Tuples></Axis></Axes><CellData><Cell CellOrdinal=\"0\"><Value>109809274.2</Value><FmtValue>$109,809,274.20</FmtValue></Cell></CellData></root></return></ExecuteResponse></soap:Body></soap:Envelope>";
    let response = frame_xml(negotiated(), server_seal(&mut server, answer.as_bytes()));
    let dataset = execute_response(&mut client, &response).unwrap();
    assert_eq!(dataset.column_count(), 1);
    assert_eq!(dataset.cell(0).unwrap().formatted_value(), "$109,809,274.20");
}

#[test]
fn discover_against_an_sspi_server() {
    let (mut client, mut server) = authenticated();
    let mut restrictions = XmlaRestrictions::default();
    restrictions
        .add(String::from("CATALOG_NAME"), String::from("AW"))
        .unwrap();
    let request = discover_request(&mut client, String::from("MDSCHEMA_CUBES"), &restrictions).unwrap();
    let message = read_response(&request).unwrap();
    let soap = String::from_utf8(server_unseal(&mut server, &message.data)).unwrap();
    assert!(soap.contains("<RequestType>MDSCHEMA_CUBES</RequestType><Restrictions><RestrictionList><CATALOG_NAME>AW</CATALOG_NAME></RestrictionList></Restrictions>"));

    let answer = "<soap:Envelope xmlns:soap=\"http://schemas.xmlsoap.org/soap/envelope/\"><soap:Body><DiscoverResponse xmlns=\"urn:schemas-microsoft-com:xml-analysis\"><return><root xmlns=\"urn:schemas-microsoft-com:xml-analysis:rowset\"><row><CUBE_NAME>Adventure Works</CUBE_NAME></row><row><CUBE_NAME>Mined Customers</CUBE_NAME></row></root></return></DiscoverResponse></soap:Body></soap:Envelope>";
    let response = frame_xml(negotiated(), server_seal(&mut server, answer.as_bytes()));
    let rows = discover_response(&mut client, &response).unwrap();
    let names: Vec<&str> = rows
        .rows()
        .iter()
        .map(|row| row.get("CUBE_NAME").unwrap().as_str())
        .collect();
    assert_eq!(names, vec!["Adventure Works", "Mined Customers"]);
}

#[test]
fn sealed_messages_round_trip_in_several_blocks() {
    let (mut client, mut server) = authenticated();
    let first = server_seal(&mut server, b"<a>");
    let second = server_seal(&mut server, b"bc</a>");
    let mut joined = first.clone();
    joined.extend_from_slice(&second);
    assert_eq!(decrypt_ssas_message(&mut client, &joined).unwrap(), b"<a>bc</a>");

    let block = encrypt_ssas_message(&mut client, b"ping").unwrap();
    assert_eq!(block.len(), 4 + 4 + 16);
    assert_eq!(server_unseal(&mut server, &block), b"ping");
}

#[test]
fn tampered_response_is_refused() {
    let (mut client, mut server) = authenticated();
    let mut block = server_seal(&mut server, b"<a/>");
    block[5] ^= 0x01;
    let response = frame_xml(negotiated(), block);
    let error = execute_response(&mut client, &response).unwrap_err();
    assert!(matches!(error, XmlaError::ProtocolError(_)));
}

#[test]
fn truncated_block_is_refused() {
    let (mut client, _server) = authenticated();
    let error = decrypt_ssas_message(&mut client, &[5, 0, 16, 0, 1, 2]).unwrap_err();
    assert_eq!(
        error.message(),
        "truncated SSAS encryption block: expected 25 bytes, found 6"
    );
    let error = decrypt_ssas_message(&mut client, &[5, 0]).unwrap_err();
    assert_eq!(error.message(), "truncated SSAS encryption-block header");
}

#[test]
fn blocks_are_split_at_their_lengths() {
    let message = [9, 9, 1, 0, 2, 0, 0xAA, 0xBB, 0xCC, 3, 0, 0, 0, 0xEE];
    let (data, token, length) = next_block(&message, 2).unwrap();
    assert_eq!(data, vec![0xAA]);
    assert_eq!(token, vec![0xBB, 0xCC]);
    assert_eq!(length, 7);
    let error = next_block(&message, 9).unwrap_err();
    assert_eq!(error.message(), "truncated SSAS encryption block: expected 7 bytes, found 5");
    let error = next_block(&message, 11).unwrap_err();
    assert_eq!(error.message(), "truncated SSAS encryption-block header");
    let (data, token, length) = next_block(&[0, 0, 0, 0], 0).unwrap();
    assert!(data.is_empty() && token.is_empty());
    assert_eq!(length, 4);
}

#[test]
fn oversized_plaintext_is_refused_before_sealing() {
    let mut fresh = Ntlm::new();
    let error = encrypt_ssas_message(&mut fresh, &vec![0_u8; 0x1_0000]).unwrap_err();
    assert_eq!(error.message(), "out of range integral type conversion attempted");
}

#[test]
fn sealing_needs_an_established_context() {
    let mut fresh = Ntlm::new();
    let error = encrypt_ssas_message(&mut fresh, b"x").unwrap_err();
    assert!(matches!(error, xmla_ssas_rs::auth::confidentiality::ConfidentialityError::Sspi(_)));
}

#[test]
fn invalid_user_name_is_refused() {
    let credentials = NtlmCredentials {
        domain: String::from("EXAMPLE@CORP"),
        username: String::from("analyst"),
        password: String::new(),
    };
    let error = NtlmHandshake::start(credentials).err().unwrap();
    assert!(matches!(error, XmlaError::InvalidUsername(ref m) if m == "mixed username format"));
}

#[test]
fn first_request_carries_the_negotiate_token() {
    let (_handshake, request) = NtlmHandshake::start(credentials()).unwrap();
    let message = read_response(&request).unwrap();
    assert_eq!(message.options, Some(DimeOptions::default()));
    assert!(handshake_of(&request).starts_with(b"NTLMSSP\0\x01\0\0\0"));
}

/// The acceptance rule that the library states for `Username::parse`,
/// written out for comparison.
fn stated_acceptance(text: &str) -> bool {
    let chars: Vec<char> = text.chars().collect();
    let v: Vec<char> = if chars.len() >= 2 && chars[0] == '.' && chars[1] == '\\' && chars[2..].contains(&'\\') {
        chars[2..].to_vec()
    } else {
        chars
    };
    match v.iter().position(|c| *c == '\\') {
        None => true,
        Some(i) => {
            let domain = &v[..i];
            let account = &v[i + 1..];
            !(account.contains(&'\\') || (i == 0 && account.contains(&'@')) || domain.contains(&'@'))
        }
    }
}

#[test]
fn user_name_acceptance_matches_sspi() {
    let cases = [
        "user", "DOMAIN\\user", "user@example.com", "a@b@c", "\\user", "\\us@er", "DOM@X\\user",
        "DOM\\us\\er", ".\\user", ".\\DOM\\user", ".\\DOM\\a\\b", "MicrosoftAccount\\user@example.com",
        "", "\\", "@", "a\\", ".\\", ".\\\\x", "x@y\\z",
    ];
    for text in cases {
        assert_eq!(
            stated_acceptance(text),
            Username::parse(text).is_ok(),
            "disagreement on {text:?}"
        );
    }
}

#[test]
fn empty_sealed_message_unseals_to_nothing() {
    let mut fresh = Ntlm::new();
    assert_eq!(decrypt_ssas_message(&mut fresh, &[]).unwrap(), Vec::<u8>::new());
}

#[test]
fn unsealed_parts_join_in_order() {
    let parts = vec![b"ab".to_vec(), Vec::new(), b"c".to_vec()];
    assert_eq!(xmla_ssas_rs::auth::confidentiality::join_blocks(&parts), b"abc".to_vec());
}
