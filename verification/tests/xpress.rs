use xmla_ssas_rs::dime::xpress::decompress;

#[test]
fn empty_input() {
    let data = [];
    let error = decompress(&data, "application/xml+xpress").unwrap_err();
    assert_eq!(error.message(), "Compressed input too short: 0");
}

#[test]
fn compressed_input_too_short() {
    let data = [0_u8; 1];
    let error = decompress(&data, "application/xml+xpress").unwrap_err();
    assert_eq!(error.message(), "Compressed input too short: 1");
}

#[test]
fn decompressed_block_size_exceeded() {
    let mut data = Vec::new();
    data.extend(u32::to_le_bytes(5 * 1024 * 1024)); // original size
    data.extend(u32::to_le_bytes(1024 * 1024)); // compressed size

    let error = decompress(&data, "application/xml+xpress").unwrap_err();
    assert_eq!(error.message(), "Decompressed block size is too large");
}

#[test]
fn decompresses_literal_block() {
    let mut data = Vec::new();
    data.extend_from_slice(&3u32.to_le_bytes()); // original size
    data.extend_from_slice(&7u32.to_le_bytes()); // compressed size
    // Zero bitmap: each token used here is a literal.
    data.extend_from_slice(&0u32.to_le_bytes());
    data.extend_from_slice(b"abc");

    assert_eq!(decompress(&data, "application/xml+xpress").unwrap(), b"abc");
}

#[test]
fn decompresses_back_reference() {
    let mut data = Vec::new();
    data.extend_from_slice(&6u32.to_le_bytes()); // original size
    data.extend_from_slice(&9u32.to_le_bytes()); // compressed size

    // Three literals followed by one match: bit 28 is set.
    data.extend_from_slice(&0x1000_0000u32.to_le_bytes());
    data.extend_from_slice(b"abc");

    // Distance = stored offset 2 + 1 = 3.
    // Length = stored length 0 + 3 = 3.
    data.extend_from_slice(&0x0010u16.to_le_bytes());

    assert_eq!(
        decompress(&data, "application/xml+xpress").unwrap(),
        b"abcabc"
    );
}

#[test]
fn uncompressed_content_type_is_refused() {
    let error = decompress(&[1, 2, 3], "text/xml").unwrap_err();
    assert_eq!(error.message(), "Message not compressed");
}

#[test]
fn two_chunks_are_joined() {
    let mut data = Vec::new();
    for text in [b"xy", b"zw"] {
        data.extend_from_slice(&2u32.to_le_bytes());
        data.extend_from_slice(&6u32.to_le_bytes());
        data.extend_from_slice(&0u32.to_le_bytes());
        data.extend_from_slice(text);
    }
    assert_eq!(decompress(&data, "application/xml+xpress").unwrap(), b"xyzw");
}

#[test]
fn chunk_sequences_decompress_independently() {
    let chunk = |text: &[u8]| {
        let mut data = Vec::new();
        data.extend_from_slice(&(text.len() as u32).to_le_bytes());
        data.extend_from_slice(&((4 + text.len()) as u32).to_le_bytes());
        data.extend_from_slice(&0u32.to_le_bytes());
        data.extend_from_slice(text);
        data
    };
    let a = [chunk(b"one"), chunk(b"two")].concat();
    let b = chunk(b"three");
    let x = decompress(&a, "application/xml+xpress").unwrap();
    let y = decompress(&b, "application/xml+xpress").unwrap();
    assert_eq!(x, b"onetwo");
    assert_eq!(
        decompress(&[a, b].concat(), "application/xml+xpress").unwrap(),
        [x, y].concat()
    );
}
