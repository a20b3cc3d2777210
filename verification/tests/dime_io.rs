use xmla_ssas_rs::dime::error::DimeError;
use xmla_ssas_rs::dime::io::ByteReader;

#[test]
fn read_padded_consumes_expected_number_of_bytes() {
    let cases = [
        (0, 0),
        (1, 4),
        (2, 4),
        (3, 4),
        (4, 4),
        (5, 8),
        (7, 8),
        (8, 8),
        (9, 12),
    ];

    for (length, expected_consumed) in cases {
        let mut input = vec![0xAB; expected_consumed];

        // Marker proving read_padded did not read too far.
        input.push(0xFE);

        let mut reader = ByteReader::new(&input);

        let result = reader.read_padded(length).unwrap();

        assert_eq!(result, vec![0xAB; length]);
        assert_eq!(
            reader.position(),
            expected_consumed,
            "incorrect bytes consumed for length {length}",
        );

        let marker = reader.read_u8().unwrap();

        assert_eq!(marker, 0xFE);
    }
}

#[test]
fn read_padded_fails_when_padding_is_incomplete() {
    // Length 5 requires reading 8 bytes.
    let input = vec![0_u8; 7];
    let mut reader = ByteReader::new(&input);

    let error = reader.read_padded(5).unwrap_err();

    assert!(matches!(error, DimeError::UnexpectedEof));
}

#[test]
fn big_endian_fields_are_read_in_order() {
    let input = [0x12, 0x34, 0x56, 0x78, 0x9A, 0xBC, 0xDE];
    let mut reader = ByteReader::new(&input);
    assert_eq!(reader.read_u16_be().unwrap(), 0x1234);
    assert_eq!(reader.read_u32_be().unwrap(), 0x5678_9ABC);
    assert_eq!(reader.remaining(), 1);
    assert!(matches!(reader.read_u16_be(), Err(DimeError::UnexpectedEof)));
}

#[test]
fn optional_string_of_length_zero_is_absent() {
    let input = [b'a', b'b', 0, 0];
    let mut reader = ByteReader::new(&input);
    assert_eq!(reader.read_padded_optional_string(0).unwrap(), None);
    assert_eq!(reader.position(), 0);
    assert_eq!(reader.read_padded_optional_string(2).unwrap(), Some(String::from("ab")));
    assert_eq!(reader.position(), 4);
}

#[test]
fn optional_string_must_be_utf8() {
    let input = [0xFF, 0, 0, 0];
    let mut reader = ByteReader::new(&input);
    assert!(matches!(reader.read_padded_optional_string(1), Err(DimeError::InvalidUtf8(_))));
}

#[test]
fn invalid_utf8_field_is_consumed_and_described() {
    let input = [b'a', 0xFF, 0, 0, b'z'];
    let mut reader = ByteReader::new(&input);
    let error = reader.read_padded_optional_string(2).unwrap_err();
    assert_eq!(reader.position(), 4);
    assert_eq!(error.message(), "invalid UTF-8: invalid utf-8 sequence of 1 bytes from index 1");
    let mut reader = ByteReader::new(&[0xC3, 0, 0, 0]);
    let error = reader.read_padded_optional_string(1).unwrap_err();
    assert_eq!(error.message(), "invalid UTF-8: incomplete utf-8 byte sequence from index 0");
}
