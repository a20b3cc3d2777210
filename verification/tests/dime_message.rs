use xmla_ssas_rs::dime::error::DimeError;
use xmla_ssas_rs::dime::format::TypeFormat;
use xmla_ssas_rs::dime::io::ByteReader;
use xmla_ssas_rs::dime::message::DimeMessage;
use xmla_ssas_rs::dime::options::DimeOptions;
use xmla_ssas_rs::dime::record::DimeRecord;

fn negotiated() -> DimeOptions {
    DimeOptions {
        is_negotiated: true,
        ..DimeOptions::default()
    }
}

fn write(message: &DimeMessage) -> Vec<u8> {
    let mut out = Vec::new();
    message.write_to(&mut out).unwrap();
    out
}

#[test]
fn message_round_trip_in_one_record() {
    let message = DimeMessage {
        options: Some(negotiated()),
        content_type: String::from("text/xml"),
        data: b"<a/>".to_vec(),
    };
    let bytes = write(&message);
    let mut reader = ByteReader::new(&bytes);
    let back = DimeMessage::read_from(&mut reader).unwrap();
    assert_eq!(back.options, Some(negotiated()));
    assert_eq!(back.content_type, "text/xml");
    assert_eq!(back.data, b"<a/>");
    assert_eq!(reader.position(), bytes.len());
}

#[test]
fn message_round_trip_in_several_chunks() {
    for len in [0usize, 4095, 4096, 4097, 9000] {
        let data: Vec<u8> = (0..len).map(|i| (i % 251) as u8).collect();
        let message = DimeMessage {
            options: None,
            content_type: String::from("application/xml+xpress"),
            data: data.clone(),
        };
        let mut bytes = write(&message);
        bytes.extend_from_slice(&[9, 9, 9]);
        let mut reader = ByteReader::new(&bytes);
        let back = DimeMessage::read_from(&mut reader).unwrap();
        assert_eq!(back.options, None);
        assert_eq!(back.content_type, "application/xml+xpress");
        assert_eq!(back.data, data);
        assert_eq!(reader.remaining(), 3);
        assert!(back.is_compressed());
    }
}

#[test]
fn first_record_header_bytes() {
    let message = DimeMessage {
        options: Some(DimeOptions::default()),
        content_type: String::from("text/xml"),
        data: vec![1, 2, 3],
    };
    let bytes = write(&message);
    // VERSION 1, MB and ME set, CF clear.
    assert_eq!(bytes[0], 0b0000_1110);
    // TYPE_T MediaType, reserved bits clear.
    assert_eq!(bytes[1], 0x10);
    // OPTIONS_LENGTH 4, ID_LENGTH 0, TYPE_LENGTH 8, DATA_LENGTH 3.
    assert_eq!(&bytes[2..12], &[0, 4, 0, 0, 0, 8, 0, 0, 0, 3]);
    assert_eq!(bytes.len(), 12 + 4 + 8 + 4);
}

#[test]
fn empty_content_type_is_refused() {
    let message = DimeMessage {
        options: None,
        content_type: String::new(),
        data: vec![1],
    };
    let mut out = Vec::new();
    let error = message.write_to(&mut out).unwrap_err();
    assert_eq!(error.message(), "Empty content type");
    assert!(out.is_empty());
}

#[test]
fn truncated_message_is_unexpected_eof() {
    let message = DimeMessage {
        options: None,
        content_type: String::from("text/xml"),
        data: vec![1, 2, 3, 4, 5],
    };
    let bytes = write(&message);
    let mut reader = ByteReader::new(&bytes[..bytes.len() - 1]);
    let error = DimeMessage::read_from(&mut reader).unwrap_err();
    assert!(matches!(error, DimeError::UnexpectedEof));
    assert_eq!(error.message(), "I/O error: failed to fill whole buffer");
}

#[test]
fn wrong_version_is_refused() {
    let bytes = [0x10 | 0x06, 0x10, 0, 0, 0, 0, 0, 0, 0, 0, 0, 0];
    let mut reader = ByteReader::new(&bytes);
    let error = DimeMessage::read_from(&mut reader).unwrap_err();
    assert!(matches!(error, DimeError::InvalidVersion(2)));
    assert_eq!(error.message(), "unsupported DIME version: 2");
}

#[test]
fn first_record_must_be_flagged_first() {
    let record = DimeRecord {
        is_first_record: false,
        is_last_record: true,
        has_next_chunk: false,
        type_format: TypeFormat::MediaType,
        id: None,
        options: None,
        type_value: Some(String::from("text/xml")),
        data: vec![],
    };
    let mut bytes = Vec::new();
    record.write_to(&mut bytes).unwrap();
    let mut reader = ByteReader::new(&bytes);
    let error = DimeMessage::read_from(&mut reader).unwrap_err();
    assert_eq!(error.message(), "DIME records out of order: first record expected");
}

#[test]
fn inconsistent_flags_are_refused() {
    let record = DimeRecord {
        is_first_record: true,
        is_last_record: true,
        has_next_chunk: true,
        type_format: TypeFormat::MediaType,
        id: None,
        options: None,
        type_value: Some(String::from("text/xml")),
        data: vec![],
    };
    let mut bytes = Vec::new();
    record.write_to(&mut bytes).unwrap();
    let mut reader = ByteReader::new(&bytes);
    let error = DimeMessage::read_from(&mut reader).unwrap_err();
    assert_eq!(error.message(), "Inconsistent record flags: ME=CF");
}

#[test]
fn record_round_trip_with_id_and_options() {
    let record = DimeRecord {
        is_first_record: true,
        is_last_record: false,
        has_next_chunk: true,
        type_format: TypeFormat::MediaType,
        id: Some(String::from("uuid:1")),
        options: Some(DimeOptions {
            is_response_compressed: true,
            ..DimeOptions::default()
        }),
        type_value: Some(String::from("text/xml")),
        data: vec![7; 10],
    };
    let mut bytes = Vec::new();
    record.write_to(&mut bytes).unwrap();
    let mut reader = ByteReader::new(&bytes);
    let back = DimeRecord::read_from(&mut reader).unwrap();
    assert!(back.is_first_record && !back.is_last_record && back.has_next_chunk);
    assert_eq!(back.type_format, TypeFormat::MediaType);
    assert_eq!(back.id.as_deref(), Some("uuid:1"));
    assert_eq!(back.type_value.as_deref(), Some("text/xml"));
    assert_eq!(back.data, vec![7; 10]);
    assert!(back.options.unwrap().is_response_compressed);
    assert_eq!(reader.position(), bytes.len());
}

#[test]
fn options_round_trip_and_errors() {
    let options = DimeOptions {
        is_negotiated: true,
        is_request_xml_binary: false,
        is_request_compressed: true,
        is_response_xml_binary: false,
        is_response_compressed: true,
    };
    let mut bytes = Vec::new();
    options.write_to(&mut bytes);
    assert_eq!(bytes, vec![0b0001_0101, 0, 0, 0]);
    let mut reader = ByteReader::new(&bytes);
    assert_eq!(DimeOptions::read_from(&mut reader, 4).unwrap(), options);

    let mut reader = ByteReader::new(&bytes);
    let error = DimeOptions::read_from(&mut reader, 3).unwrap_err();
    assert_eq!(error.message(), "invalid DIME options length: 3");

    let bad = [0b1000_0000, 0, 0, 0];
    let mut reader = ByteReader::new(&bad);
    let error = DimeOptions::read_from(&mut reader, 4).unwrap_err();
    assert_eq!(error.message(), "invalid DIME options flags: 0b10000000");

    let reserved = [1, 0, 1, 0];
    let mut reader = ByteReader::new(&reserved);
    let error = DimeOptions::read_from(&mut reader, 4).unwrap_err();
    assert_eq!(error.message(), "DIME options reserved bytes are not zero");
}

#[test]
fn type_format_codes() {
    for code in 0u8..5 {
        let format = TypeFormat::try_from(code).unwrap();
        assert_eq!(format.code(), code);
    }
    assert_eq!(TypeFormat::try_from(1).unwrap().as_str(), "MediaType");
    let error = TypeFormat::try_from(9).unwrap_err();
    assert_eq!(error.message(), "invalid DIME type format: 9");
}

fn record(first: bool, last: bool, format: TypeFormat, id: Option<&str>, type_value: Option<&str>) -> DimeRecord {
    DimeRecord {
        is_first_record: first,
        is_last_record: last,
        has_next_chunk: !last,
        type_format: format,
        id: id.map(String::from),
        options: None,
        type_value: type_value.map(String::from),
        data: vec![1, 2],
    }
}

fn two_records(second: DimeRecord) -> Vec<u8> {
    let mut bytes = Vec::new();
    record(true, false, TypeFormat::MediaType, None, Some("text/xml"))
        .write_to(&mut bytes)
        .unwrap();
    second.write_to(&mut bytes).unwrap();
    bytes
}

fn read_error(bytes: &[u8]) -> DimeError {
    let mut reader = ByteReader::new(bytes);
    DimeMessage::read_from(&mut reader).unwrap_err()
}

#[test]
fn later_record_errors() {
    let error = read_error(&two_records(record(false, true, TypeFormat::MediaType, None, None)));
    assert!(matches!(error, DimeError::UnexpectedTypeFormat(TypeFormat::MediaType)));
    assert_eq!(error.message(), "unexpected DIME type format: MediaType");

    let error = read_error(&two_records(record(false, true, TypeFormat::Unchanged, None, Some("a/b"))));
    assert_eq!(error.message(), "unexpected DIME content type: a/b");

    let error = read_error(&two_records(record(false, true, TypeFormat::Unchanged, Some("x"), None)));
    assert_eq!(error.message(), "Unexpected ID: x");

    let error = read_error(&two_records(record(true, true, TypeFormat::Unchanged, None, None)));
    assert_eq!(error.message(), "DIME records out of order: first record not expected");

    let mut bytes = two_records(record(false, true, TypeFormat::Unchanged, None, None));
    let back = DimeMessage::read_from(&mut ByteReader::new(&bytes)).unwrap();
    assert_eq!(back.data, vec![1, 2, 1, 2]);
    bytes.truncate(bytes.len() - 4);
    assert!(matches!(read_error(&bytes), DimeError::UnexpectedEof));
}

#[test]
fn first_record_needs_a_content_type() {
    let mut bytes = Vec::new();
    record(true, true, TypeFormat::MediaType, None, None)
        .write_to(&mut bytes)
        .unwrap();
    assert_eq!(read_error(&bytes).message(), "Expected content type");
}

#[test]
fn reserved_bits_must_be_clear() {
    let mut bytes = Vec::new();
    record(true, true, TypeFormat::MediaType, None, Some("text/xml"))
        .write_to(&mut bytes)
        .unwrap();
    bytes[1] |= 0b0000_0101;
    let error = read_error(&bytes);
    assert!(matches!(error, DimeError::InvalidReservedBits(5)));
    assert_eq!(error.message(), "invalid DIME reserved bits: 0b0101");
}

#[test]
fn oversized_type_field_is_refused() {
    let message = DimeMessage {
        options: None,
        content_type: "x".repeat(70_000),
        data: vec![],
    };
    let mut out = Vec::new();
    let error = message.write_to(&mut out).unwrap_err();
    assert!(matches!(error, DimeError::FieldTooLarge("TYPE")));
    assert_eq!(error.message(), "DIME field is too large: TYPE");
    assert!(out.is_empty());
}

#[test]
fn options_errors_before_reading_leave_the_reader() {
    let bytes = [1, 0, 0, 0];
    let mut reader = ByteReader::new(&bytes);
    assert!(DimeOptions::read_from(&mut reader, 2).is_err());
    assert_eq!(reader.position(), 0);
    let short = [1, 0];
    let mut reader = ByteReader::new(&short);
    assert!(matches!(DimeOptions::read_from(&mut reader, 4), Err(DimeError::UnexpectedEof)));
    assert_eq!(reader.position(), 0);
}
