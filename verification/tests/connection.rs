use std::time::Duration;
use xmla_ssas_rs::auth::confidentiality::{encryption_block, ConfidentialityError};
use xmla_ssas_rs::auth::ntlm::{needs_completion, HandshakeStatus};
use xmla_ssas_rs::connection::error::XmlaError;
use xmla_ssas_rs::connection::exchange::{frame_xml, read_response};
use xmla_ssas_rs::connection::handshake::{authenticate_request, challenge_token, final_check};
use xmla_ssas_rs::connection::options::SsasTcpConnectionOptions;
use xmla_ssas_rs::connection::session::{
    discover_from_plaintext, execute_from_plaintext, probe_request, probe_response,
    response_payload, PROBE_SOAP,
};
use xmla_ssas_rs::dime::io::ByteReader;
use xmla_ssas_rs::dime::message::DimeMessage;
use xmla_ssas_rs::dime::options::DimeOptions;

fn xml_response(xml: &str) -> Vec<u8> {
    frame_xml(DimeOptions::default(), xml.as_bytes().to_vec())
}

fn handshake_response(text: &str) -> Vec<u8> {
    xml_response(&format!(
        r#"<soap:Envelope xmlns:soap="http://schemas.xmlsoap.org/soap/envelope/"><soap:Body><Authenticate xmlns="http://schemas.microsoft.com/analysisservices/2003/ext"><SspiHandshake>{}</SspiHandshake></Authenticate></soap:Body></soap:Envelope>"#,
        text
    ))
}

#[test]
fn options_defaults_and_builders() {
    let options = SsasTcpConnectionOptions::new(String::from("ssas.example"), 2383);
    assert_eq!(options.host(), "ssas.example");
    assert_eq!(options.port(), 2383);
    assert_eq!(options.connect_timeout(), Duration::from_secs(10));
    assert_eq!(options.read_timeout(), Duration::from_secs(60));
    let options = options
        .with_connect_timeout(Duration::from_millis(1500))
        .with_read_timeout(Duration::from_secs(5));
    assert_eq!(options.connect_timeout(), Duration::from_millis(1500));
    assert_eq!(options.read_timeout(), Duration::from_secs(5));
    assert_eq!(options.host(), "ssas.example");
}

#[test]
fn challenge_token_is_decoded_from_the_handshake() {
    let response = handshake_response("\n  TlRM TVNT\r\nUAAC  \n");
    assert_eq!(challenge_token(&response).unwrap(), b"NTLMSSP\x00\x02".to_vec());
}

#[test]
fn challenge_token_errors() {
    let error = challenge_token(&handshake_response("   ")).unwrap_err();
    assert!(matches!(error, XmlaError::ProtocolError(ref m) if m == "SspiHandshake missing from response"));
    let error = challenge_token(&handshake_response("not*base64")).unwrap_err();
    assert!(matches!(error, XmlaError::ProtocolError(ref m) if m == "Invalid SspiHandshake Base64"));
    let error = challenge_token(&xml_response("<a/>")).unwrap_err();
    assert!(matches!(error, XmlaError::ProtocolError(ref m) if m == "SspiHandshake missing from response"));
    let error = challenge_token(&xml_response("<a")).unwrap_err();
    assert!(matches!(error, XmlaError::Xml(_)));
    let error = challenge_token(&frame_xml(DimeOptions::default(), vec![0xC3, 0x28])).unwrap_err();
    assert!(matches!(error, XmlaError::Utf8(_)));
    if let XmlaError::Utf8(e) = error {
        assert_eq!(e.valid_up_to(), 0);
        assert_eq!(e.to_string(), "invalid utf-8 sequence of 1 bytes from index 0");
    }
    let error = challenge_token(&[0x0E]).unwrap_err();
    assert!(matches!(error, XmlaError::Dime(_)));
}

#[test]
fn final_handshake_must_be_empty() {
    assert!(final_check(&handshake_response(" \n ")).is_ok());
    let error = final_check(&handshake_response("TlRM")).unwrap_err();
    assert!(matches!(error, XmlaError::ProtocolError(ref m) if m == "SspiHandshake should be empty"));
    let error = final_check(&xml_response("<a/>")).unwrap_err();
    assert!(matches!(error, XmlaError::ProtocolError(ref m) if m == "SspiHandshake missing from response"));
}

#[test]
fn authenticate_request_carries_the_token_in_base64() {
    let negotiated = DimeOptions {
        is_negotiated: true,
        ..DimeOptions::default()
    };
    let bytes = authenticate_request(b"NTLMSSP\x00\x01", negotiated).unwrap();
    let message = read_response(&bytes).unwrap();
    assert_eq!(message.options, Some(negotiated));
    assert_eq!(message.content_type, "text/xml");
    let text = String::from_utf8(message.data).unwrap();
    assert!(text.contains("<SspiHandshake>TlRMTVNTUAAB</SspiHandshake>"));
}

#[test]
fn probe_request_and_response() {
    let bytes = probe_request();
    let mut reader = ByteReader::new(&bytes);
    let message = DimeMessage::read_from(&mut reader).unwrap();
    assert_eq!(message.options, Some(DimeOptions::default()));
    assert_eq!(message.data, PROBE_SOAP.as_bytes());

    let fault = |code: &str| {
        xml_response(&format!(
            r#"<soap:Envelope xmlns:soap="http://schemas.xmlsoap.org/soap/envelope/"><soap:Body><soap:Fault><faultcode>{}</faultcode></soap:Fault></soap:Body></soap:Envelope>"#,
            code
        ))
    };
    assert!(probe_response(&fault(" XMLAnalysisError.0xc10f000a ")).is_ok());
    let error = probe_response(&fault("XMLAnalysisError.0xc1000000")).unwrap_err();
    assert!(matches!(error, XmlaError::ProtocolError(ref m) if m == "XMLAnalysisError.0xc1000000"));
    let error = probe_response(&xml_response("<ok/>")).unwrap_err();
    assert!(matches!(error, XmlaError::ProtocolError(ref m) if m == "Unexpected response message"));
}

#[test]
fn encryption_block_layout() {
    let block = encryption_block(&[1, 2, 3], &[9; 16]);
    let mut expected = vec![3, 0, 16, 0, 1, 2, 3];
    expected.extend_from_slice(&[9; 16]);
    assert_eq!(block, expected);
    let long = vec![0u8; 300];
    let block = encryption_block(&long, &[]);
    assert_eq!(&block[..4], &[44, 1, 0, 0]);
    assert_eq!(block.len(), 304);
}

#[test]
fn confidentiality_error_texts() {
    assert_eq!(
        ConfidentialityError::OutOfRange.message(),
        "out of range integral type conversion attempted"
    );
    assert_eq!(
        ConfidentialityError::TruncatedHeader.message(),
        "truncated SSAS encryption-block header"
    );
    assert_eq!(
        ConfidentialityError::TruncatedBlock {
            expected: 120,
            found: 7
        }
        .message(),
        "truncated SSAS encryption block: expected 120 bytes, found 7"
    );
}

#[test]
fn handshake_completion() {
    assert!(needs_completion(HandshakeStatus::CompleteNeeded));
    assert!(needs_completion(HandshakeStatus::CompleteAndContinue));
    assert!(!needs_completion(HandshakeStatus::ContinueNeeded));
    assert!(!needs_completion(HandshakeStatus::Succeeded));
}

#[test]
fn compressed_payload_is_decompressed() {
    let mut data = Vec::new();
    data.extend_from_slice(&3u32.to_le_bytes());
    data.extend_from_slice(&7u32.to_le_bytes());
    data.extend_from_slice(&0u32.to_le_bytes());
    data.extend_from_slice(b"<a>");
    assert_eq!(response_payload(data.clone(), "application/xml+xpress").unwrap(), b"<a>");
    assert_eq!(response_payload(data.clone(), "text/xml").unwrap(), data);
    let error = response_payload(vec![1], "application/xml+xpress").unwrap_err();
    assert!(matches!(error, XmlaError::Dime(_)));
}

#[test]
fn plaintext_answers_are_parsed() {
    let discover = r#"<soap:Envelope xmlns:soap="http://schemas.xmlsoap.org/soap/envelope/"><soap:Body><DiscoverResponse xmlns="urn:schemas-microsoft-com:xml-analysis"><return><root xmlns="urn:schemas-microsoft-com:xml-analysis:rowset"><row><CUBE_NAME>Sales</CUBE_NAME></row></root></return></DiscoverResponse></soap:Body></soap:Envelope>"#;
    let response = discover_from_plaintext(discover.as_bytes().to_vec(), "text/xml").unwrap();
    assert_eq!(response.rows()[0].get("CUBE_NAME").unwrap(), "Sales");
    let error = execute_from_plaintext(discover.as_bytes().to_vec(), "text/xml").unwrap_err();
    assert!(matches!(error, XmlaError::ParsingError(_)));
    let error = discover_from_plaintext(vec![b'<', 0xFF], "text/xml").unwrap_err();
    assert!(matches!(error, XmlaError::Utf8(ref e) if e.valid_up_to() == 1));
}

#[test]
fn discover_answer_reads_the_first_body_element() {
    let fault = r#"<soap:Envelope xmlns:soap="http://schemas.xmlsoap.org/soap/envelope/"><soap:Body><soap:Fault><faultcode>X</faultcode></soap:Fault></soap:Body></soap:Envelope>"#;
    let error = discover_from_plaintext(fault.as_bytes().to_vec(), "text/xml").unwrap_err();
    assert!(matches!(error,
        XmlaError::ParsingError(ref m) if m == "Expected {urn:schemas-microsoft-com:xml-analysis}DiscoverResponse node, found: {http://schemas.xmlsoap.org/soap/envelope/}/Fault"));
    let error = execute_from_plaintext(fault.as_bytes().to_vec(), "text/xml").unwrap_err();
    assert!(matches!(error, XmlaError::ProtocolError(ref m) if m == "X: Unknown"));
    let empty = r#"<soap:Envelope xmlns:soap="http://schemas.xmlsoap.org/soap/envelope/"><soap:Body></soap:Body></soap:Envelope>"#;
    let error = discover_from_plaintext(empty.as_bytes().to_vec(), "text/xml").unwrap_err();
    assert!(matches!(error, XmlaError::ProtocolError(ref m) if m == "Empty body"));
}
