use crate::dime::error::{DimeError, DimeErrorView};
use crate::dime::io::ByteReader;
use vstd::prelude::*;

verus! {

/// The negotiation flags that Analysis Services carries in the DIME
/// options field.
#[derive(Debug, Clone, Copy, PartialEq, Eq, Structural)]
pub struct DimeOptions {
    /// NEGO
    pub is_negotiated: bool,
    /// REQ_SX
    pub is_request_xml_binary: bool,
    /// REQ_XPRESS
    pub is_request_compressed: bool,
    /// RESP_SX
    pub is_response_xml_binary: bool,
    /// RESP_XPRESS
    pub is_response_compressed: bool,
}

impl Default for DimeOptions {
    fn default() -> (r: DimeOptions)
        ensures
            r == no_options(),
    {
        DimeOptions {
            is_negotiated: false,
            is_request_xml_binary: false,
            is_request_compressed: false,
            is_response_xml_binary: false,
            is_response_compressed: false,
        }
    }
}

/// Options with every flag clear.
pub open spec fn no_options() -> DimeOptions {
    DimeOptions {
        is_negotiated: false,
        is_request_xml_binary: false,
        is_request_compressed: false,
        is_response_xml_binary: false,
        is_response_compressed: false,
    }
}

/// The options that a flags byte describes.
pub open spec fn options_of_flags(flags: u8) -> DimeOptions {
    DimeOptions {
        is_negotiated: flags % 2 == 1,
        is_request_xml_binary: (flags / 2) % 2 == 1,
        is_request_compressed: (flags / 4) % 2 == 1,
        is_response_xml_binary: (flags / 8) % 2 == 1,
        is_response_compressed: (flags / 16) % 2 == 1,
    }
}

/// The flags byte that describes the options.
pub open spec fn flags_of_options(o: DimeOptions) -> u8 {
    ((if o.is_negotiated { 1int } else { 0 }) + (if o.is_request_xml_binary { 2int } else { 0 })
        + (if o.is_request_compressed { 4int } else { 0 }) + (if o.is_response_xml_binary {
        8int
    } else {
        0
    }) + (if o.is_response_compressed { 16int } else { 0 })) as u8
}

/// The four bytes of the options field.
pub open spec fn options_bytes(o: DimeOptions) -> Seq<u8> {
    seq![flags_of_options(o), 0u8, 0u8, 0u8]
}

/// Reading an options field of the given declared length from `s`: the
/// options and the number of bytes consumed, or the error.
pub open spec fn spec_read_options(options_length: u16, s: Seq<u8>) -> Result<
    (DimeOptions, int),
    DimeErrorView,
> {
    if options_length != 4 {
        Err(DimeErrorView::InvalidOptionsLength(options_length))
    } else if s.len() < 4 {
        Err(DimeErrorView::UnexpectedEof)
    } else if s[0] >= 32 {
        Err(DimeErrorView::InvalidOptionsFlags(s[0]))
    } else if s[1] != 0 || s[2] != 0 || s[3] != 0 {
        Err(DimeErrorView::InvalidOptionsReservedBytes)
    } else {
        Ok((options_of_flags(s[0]), 4))
    }
}

/// Decoding the field that encodes some options gives them back.
pub proof fn lemma_options_roundtrip(o: DimeOptions, rest: Seq<u8>)
    ensures
        flags_of_options(o) < 32,
        options_of_flags(flags_of_options(o)) == o,
        spec_read_options(4, options_bytes(o) + rest) == Ok::<(DimeOptions, int), DimeErrorView>(
            (o, 4),
        ),
{
    let s = options_bytes(o) + rest;
    assert(s[0] == flags_of_options(o));
    assert(s[1] == 0 && s[2] == 0 && s[3] == 0);
}

/// The layout of the options field: its first byte holds NEGO at bit 0,
/// REQ_SX at bit 1, REQ_XPRESS at bit 2, RESP_SX at bit 3 and RESP_XPRESS
/// at bit 4, with the three high bits clear, and the three bytes after it
/// are zero.
pub proof fn lemma_options_bit_layout(o: DimeOptions)
    ensures
        options_bytes(o).len() == 4,
        options_bytes(o)[0] < 32,
        options_bytes(o)[0] % 2 == 1 <==> o.is_negotiated,
        (options_bytes(o)[0] / 2) % 2 == 1 <==> o.is_request_xml_binary,
        (options_bytes(o)[0] / 4) % 2 == 1 <==> o.is_request_compressed,
        (options_bytes(o)[0] / 8) % 2 == 1 <==> o.is_response_xml_binary,
        (options_bytes(o)[0] / 16) % 2 == 1 <==> o.is_response_compressed,
        options_bytes(o)[1] == 0 && options_bytes(o)[2] == 0 && options_bytes(o)[3] == 0,
{
    lemma_options_roundtrip(o, Seq::empty());
}

/// Reading an options field of length 4 whose first byte is below 32 and
/// whose other bytes are zero takes each flag from its bit: NEGO from bit
/// 0, REQ_SX from bit 1, REQ_XPRESS from bit 2, RESP_SX from bit 3 and
/// RESP_XPRESS from bit 4, and consumes the four bytes.
pub proof fn lemma_read_options_bit_layout(s: Seq<u8>)
    requires
        s.len() >= 4,
        s[0] < 32,
        s[1] == 0 && s[2] == 0 && s[3] == 0,
    ensures
        spec_read_options(4, s) matches Ok((o, n)) && n == 4 && (o.is_negotiated <==> s[0] % 2
            == 1) && (o.is_request_xml_binary <==> (s[0] / 2) % 2 == 1) && (o.is_request_compressed
            <==> (s[0] / 4) % 2 == 1) && (o.is_response_xml_binary <==> (s[0] / 8) % 2 == 1) && (
        o.is_response_compressed <==> (s[0] / 16) % 2 == 1),
{
}

impl DimeOptions {
    /// Reads the options field whose declared length is `options_length`.
    /// Nothing is read when the declared length is not 4 or fewer than four
    /// bytes remain.
    pub fn read_from(reader: &mut ByteReader, options_length: u16) -> (r: Result<
        DimeOptions,
        DimeError,
    >)
        requires
            old(reader).wf(),
        ensures
            final(reader).wf(),
            final(reader).input() == old(reader).input(),
            match spec_read_options(options_length, old(reader).rest()) {
                Ok((o, n)) => r == Ok::<DimeOptions, DimeError>(o) && final(reader).offset()
                    == old(reader).offset() + n,
                Err(e) => r matches Err(e2) && e2@ == e,
            },
            options_length != 4 ==> final(reader).offset() == old(reader).offset(),
            old(reader).rest().len() < 4 ==> final(reader).offset() == old(reader).offset(),
    {
        if options_length != 4 {
            return Err(DimeError::InvalidOptionsLength(options_length));
        }
        if reader.remaining() < 4 {
            return Err(DimeError::UnexpectedEof);
        }
        let options_flags = reader.read_u8()?;
        let r1 = reader.read_u8()?;
        let r2 = reader.read_u8()?;
        let r3 = reader.read_u8()?;
        if options_flags >= 32 {
            return Err(DimeError::InvalidOptionsFlags(options_flags));
        }
        if r1 != 0 || r2 != 0 || r3 != 0 {
            return Err(DimeError::InvalidOptionsReservedBytes);
        }
        Ok(DimeOptions {
            is_negotiated: options_flags % 2 == 1,
            is_request_xml_binary: (options_flags / 2) % 2 == 1,
            is_request_compressed: (options_flags / 4) % 2 == 1,
            is_response_xml_binary: (options_flags / 8) % 2 == 1,
            is_response_compressed: (options_flags / 16) % 2 == 1,
        })
    }

    /// Appends the options field.
    pub fn write_to(&self, out: &mut Vec<u8>)
        ensures
            final(out)@ == old(out)@ + options_bytes(*self),
    {
        let mut options_flags = 0u8;
        if self.is_negotiated {
            options_flags = options_flags + 1;
        }
        if self.is_request_xml_binary {
            options_flags = options_flags + 2;
        }
        if self.is_request_compressed {
            options_flags = options_flags + 4;
        }
        if self.is_response_xml_binary {
            options_flags = options_flags + 8;
        }
        if self.is_response_compressed {
            options_flags = options_flags + 16;
        }
        out.push(options_flags);
        out.push(0);
        out.push(0);
        out.push(0);
        assert(final(out)@ =~= old(out)@ + options_bytes(*self));
    }
}

} // verus!
