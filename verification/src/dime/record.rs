use crate::dime::error::{DimeError, DimeErrorView};
use crate::dime::format::{lemma_type_format_code_roundtrip, type_format_code, type_format_of_code, TypeFormat};
use crate::dime::io::{lemma_read_opt_string_bounds, pad_len, write_padded, write_u16_be, write_u32_be, lemma_padded_bytes, lemma_be_roundtrip, opt_chars, spec_read_opt_string, be_u16, be_u32, padded_bytes, padded_len, u16_be_bytes, u32_be_bytes, ByteReader};
use crate::dime::options::{lemma_options_roundtrip, options_bytes, spec_read_options, DimeOptions};
use vstd::prelude::*;
use vstd::utf8::*;

verus! {

/// One DIME record.
pub struct DimeRecord {
    /// DIME MB (Message Begin) flag
    pub is_first_record: bool,
    /// DIME ME (Message End) flag
    pub is_last_record: bool,
    /// DIME CF (Chunk Flag)
    pub has_next_chunk: bool,
    /// DIME TYPE_T field
    pub type_format: TypeFormat,
    /// DIME ID field
    pub id: Option<String>,
    /// DIME options field
    pub options: Option<DimeOptions>,
    /// Value of the DIME TYPE field.
    pub type_value: Option<String>,
    /// DIME data field
    pub data: Vec<u8>,
}

/// The content of a [`DimeRecord`].
pub ghost struct DimeRecordView {
    pub is_first_record: bool,
    pub is_last_record: bool,
    pub has_next_chunk: bool,
    pub type_format: TypeFormat,
    pub id: Option<Seq<char>>,
    pub options: Option<DimeOptions>,
    pub type_value: Option<Seq<char>>,
    pub data: Seq<u8>,
}

impl View for DimeRecord {
    type V = DimeRecordView;

    open spec fn view(&self) -> DimeRecordView {
        DimeRecordView {
            is_first_record: self.is_first_record,
            is_last_record: self.is_last_record,
            has_next_chunk: self.has_next_chunk,
            type_format: self.type_format,
            id: opt_chars(self.id),
            options: self.options,
            type_value: opt_chars(self.type_value),
            data: self.data@,
        }
    }
}

/// Reading the options field of a record from `s`; a declared length of
/// zero means that there is none.
pub open spec fn spec_read_record_options(options_length: u16, s: Seq<u8>) -> Result<
    (Option<DimeOptions>, int),
    DimeErrorView,
> {
    if options_length == 0 {
        Ok((None, 0))
    } else {
        match spec_read_options(options_length, s) {
            Ok((o, n)) => Ok((Some(o), n)),
            Err(e) => Err(e),
        }
    }
}

/// The fixed twelve-byte header of a record is well formed: version 1,
/// reserved bits clear and a known type format.
pub open spec fn spec_header_check(s: Seq<u8>) -> Result<TypeFormat, DimeErrorView> {
    if s.len() < 1 {
        Err(DimeErrorView::UnexpectedEof)
    } else if s[0] / 8 != 1 {
        Err(DimeErrorView::InvalidVersion(s[0] / 8))
    } else if s.len() < 2 {
        Err(DimeErrorView::UnexpectedEof)
    } else if s[1] % 16 != 0 {
        Err(DimeErrorView::InvalidReservedBits(s[1] % 16))
    } else {
        match type_format_of_code(s[1] / 16) {
            None => Err(DimeErrorView::InvalidTypeFormat(s[1] / 16)),
            Some(f) => if s.len() < 12 {
                Err(DimeErrorView::UnexpectedEof)
            } else {
                Ok(f)
            },
        }
    }
}

/// The variable part of a record, read after its twelve-byte header from
/// `t`: the options, ID, TYPE and data fields and the bytes they take.
pub ghost struct RecordFields {
    pub options: Option<DimeOptions>,
    pub id: Option<Seq<char>>,
    pub type_value: Option<Seq<char>>,
    pub data: Seq<u8>,
}

/// Reading the fields that follow the header, given the four length fields.
#[verifier::opaque]
pub open spec fn spec_read_record_fields(
    t: Seq<u8>,
    options_length: u16,
    id_length: u16,
    type_length: u16,
    data_length: u32,
) -> Result<(RecordFields, int), DimeErrorView> {
    match spec_read_record_options(options_length, t) {
        Err(e) => Err(e),
        Ok((options, n1)) => match spec_read_opt_string(id_length as int, t.skip(n1)) {
            Err(e) => Err(e),
            Ok((id, n2)) => match spec_read_opt_string(type_length as int, t.skip(n1 + n2)) {
                Err(e) => Err(e),
                Ok((type_value, n3)) => {
                    let d = t.skip(n1 + n2 + n3);
                    if d.len() < padded_len(data_length as int) {
                        Err(DimeErrorView::UnexpectedEof)
                    } else {
                        Ok(
                            (
                                RecordFields {
                                    options,
                                    id,
                                    type_value,
                                    data: d.subrange(0, data_length as int),
                                },
                                n1 + n2 + n3 + padded_len(data_length as int),
                            ),
                        )
                    }
                },
            },
        },
    }
}

/// Reading one record from the start of `s`: the record and the number of
/// bytes that it takes, or the error met first.
pub open spec fn spec_read_record(s: Seq<u8>) -> Result<(DimeRecordView, int), DimeErrorView> {
    match spec_header_check(s) {
        Err(e) => Err(e),
        Ok(format) => match spec_read_record_fields(
            s.skip(12),
            be_u16(s[2], s[3]),
            be_u16(s[4], s[5]),
            be_u16(s[6], s[7]),
            be_u32(s[8], s[9], s[10], s[11]),
        ) {
            Err(e) => Err(e),
            Ok((f, n)) => Ok(
                (
                    DimeRecordView {
                        is_first_record: (s[0] / 4) % 2 == 1,
                        is_last_record: (s[0] / 2) % 2 == 1,
                        has_next_chunk: s[0] % 2 == 1,
                        type_format: format,
                        id: f.id,
                        options: f.options,
                        type_value: f.type_value,
                        data: f.data,
                    },
                    12 + n,
                ),
            ),
        },
    }
}

/// The bytes of an optional string field: its UTF-8 encoding, padded.
pub open spec fn opt_string_bytes(s: Option<Seq<char>>) -> Seq<u8> {
    match s {
        Some(t) => padded_bytes(encode_utf8(t)),
        None => Seq::empty(),
    }
}

/// The value of the length field of an optional string field.
pub open spec fn opt_string_len(s: Option<Seq<char>>) -> int {
    match s {
        Some(t) => encode_utf8(t).len() as int,
        None => 0,
    }
}

/// The first header byte: version 1 and the three flags.
pub open spec fn first_header_byte(r: DimeRecordView) -> u8 {
    (8 + (if r.is_first_record { 4int } else { 0 }) + (if r.is_last_record { 2int } else { 0 }) + (
    if r.has_next_chunk {
        1int
    } else {
        0
    })) as u8
}

/// The record's fields fit their length fields.
pub open spec fn record_fits(r: DimeRecordView) -> bool {
    &&& opt_string_len(r.id) <= u16::MAX
    &&& opt_string_len(r.type_value) <= u16::MAX
    &&& r.data.len() <= u32::MAX
}

/// The bytes of the options field, if any.
pub open spec fn opt_options_bytes(o: Option<DimeOptions>) -> Seq<u8> {
    match o {
        Some(o) => options_bytes(o),
        None => Seq::empty(),
    }
}

/// The twelve header bytes of a record whose fields fit their length fields.
pub open spec fn record_header_bytes(r: DimeRecordView) -> Seq<u8> {
    seq![first_header_byte(r), (type_format_code(r.type_format) * 16) as u8] + u16_be_bytes(
        if r.options.is_some() {
            4
        } else {
            0
        },
    ) + u16_be_bytes(opt_string_len(r.id) as u16) + u16_be_bytes(
        opt_string_len(r.type_value) as u16,
    ) + u32_be_bytes(r.data.len() as u32)
}

/// The bytes of the fields that follow the header.
pub open spec fn record_fields_bytes(r: DimeRecordView) -> Seq<u8> {
    opt_options_bytes(r.options) + opt_string_bytes(r.id) + opt_string_bytes(r.type_value)
        + padded_bytes(r.data)
}

/// The bytes that encode a record whose fields fit their length fields.
pub open spec fn spec_write_record(r: DimeRecordView) -> Seq<u8> {
    record_header_bytes(r) + record_fields_bytes(r)
}

/// An optional string as it comes back from its encoding: the empty string
/// is encoded with length zero, which stands for an absent field.
pub open spec fn normalize_opt_string(s: Option<Seq<char>>) -> Option<Seq<char>> {
    match s {
        Some(t) => if t.len() == 0 {
            None
        } else {
            Some(t)
        },
        None => None,
    }
}

/// A record as it comes back from its encoding.
pub open spec fn normalize_record(r: DimeRecordView) -> DimeRecordView {
    DimeRecordView {
        id: normalize_opt_string(r.id),
        type_value: normalize_opt_string(r.type_value),
        ..r
    }
}

/// Reads the options field of a record, absent when its declared length is
/// zero.
fn read_record_options(reader: &mut ByteReader, options_length: u16) -> (r: Result<
    Option<DimeOptions>,
    DimeError,
>)
    requires
        old(reader).wf(),
    ensures
        final(reader).wf(),
        final(reader).input() == old(reader).input(),
        match spec_read_record_options(options_length, old(reader).rest()) {
            Ok((v, n)) => r == Ok::<Option<DimeOptions>, DimeError>(v) && final(reader).offset()
                == old(reader).offset() + n,
            Err(e) => r matches Err(e2) && e2@ == e,
        },
{
    if options_length == 0 {
        Ok(None)
    } else {
        Ok(Some(DimeOptions::read_from(reader, options_length)?))
    }
}

/// Reads the first twelve bytes of a record: the header byte with the
/// flags, the type format and the four length fields.
fn read_header(reader: &mut ByteReader) -> (r: Result<(u8, TypeFormat, u16, u16, u16, u32), DimeError>)
    requires
        old(reader).wf(),
    ensures
        final(reader).wf(),
        final(reader).input() == old(reader).input(),
        ({
            let s = old(reader).rest();
            match spec_header_check(s) {
                Ok(f) => r == Ok::<(u8, TypeFormat, u16, u16, u16, u32), DimeError>(
                    (
                        s[0],
                        f,
                        be_u16(s[2], s[3]),
                        be_u16(s[4], s[5]),
                        be_u16(s[6], s[7]),
                        be_u32(s[8], s[9], s[10], s[11]),
                    ),
                ) && final(reader).offset() == old(reader).offset() + 12,
                Err(e) => r matches Err(e2) && e2@ == e,
            }
        }),
{
    let first_header_byte = reader.read_u8()?;
    let version = first_header_byte / 8;
    if version != 1 {
        return Err(DimeError::InvalidVersion(version));
    }
    let second_header_byte = reader.read_u8()?;
    let reserved = second_header_byte % 16;
    if reserved != 0 {
        return Err(DimeError::InvalidReservedBits(reserved));
    }
    let type_format = TypeFormat::try_from(second_header_byte / 16)?;
    if reader.remaining() < 10 {
        return Err(DimeError::UnexpectedEof);
    }
    let options_length = reader.read_u16_be()?;
    let id_length = reader.read_u16_be()?;
    let type_length = reader.read_u16_be()?;
    let data_length = reader.read_u32_be()?;
    Ok((first_header_byte, type_format, options_length, id_length, type_length, data_length))
}

/// Reads the fields that follow the header, given the four length fields.
fn read_fields(
    reader: &mut ByteReader,
    options_length: u16,
    id_length: u16,
    type_length: u16,
    data_length: u32,
) -> (r: Result<(Option<DimeOptions>, Option<String>, Option<String>, Vec<u8>), DimeError>)
    requires
        old(reader).wf(),
    ensures
        final(reader).wf(),
        final(reader).input() == old(reader).input(),
        match spec_read_record_fields(
            old(reader).rest(),
            options_length,
            id_length,
            type_length,
            data_length,
        ) {
            Ok((f, n)) => r matches Ok((o, i, t, d)) && o == f.options && opt_chars(i) == f.id
                && opt_chars(t) == f.type_value && d@ == f.data && final(reader).offset()
                == old(reader).offset() + n,
            Err(e) => r matches Err(e2) && e2@ == e,
        },
{
    reveal(spec_read_record_fields);
    let options = read_record_options(reader, options_length)?;
    let ghost n1 = reader.offset() - old(reader).offset();
    proof {
        ByteReader::lemma_rest_advance(old(reader), reader, n1);
    }
    let ghost r2 = *reader;
    proof {
        lemma_read_opt_string_bounds(id_length as int, r2.rest());
    }
    let id = reader.read_padded_optional_string(id_length as usize)?;
    let ghost n2 = reader.offset() - r2.offset();
    proof {
        ByteReader::lemma_rest_advance(&r2, reader, n2);
        assert(r2.rest().skip(n2) =~= old(reader).rest().skip(n1 + n2));
    }
    let ghost r3 = *reader;
    proof {
        lemma_read_opt_string_bounds(type_length as int, r3.rest());
    }
    let type_value = reader.read_padded_optional_string(type_length as usize)?;
    let ghost n3 = reader.offset() - r3.offset();
    proof {
        ByteReader::lemma_rest_advance(&r3, reader, n3);
        assert(r3.rest().skip(n3) =~= old(reader).rest().skip(n1 + n2 + n3));
    }
    let data = reader.read_padded(data_length as usize)?;
    Ok((options, id, type_value, data))
}

impl DimeRecord {
    /// Reads one record from the reader.
    pub fn read_from(reader: &mut ByteReader) -> (r: Result<DimeRecord, DimeError>)
        requires
            old(reader).wf(),
        ensures
            final(reader).wf(),
            final(reader).input() == old(reader).input(),
            match spec_read_record(old(reader).rest()) {
                Ok((v, n)) => r matches Ok(rec) && rec@ == v && final(reader).offset()
                    == old(reader).offset() + n,
                Err(e) => r matches Err(e2) && e2@ == e,
            },
    {
        let (first_header_byte, type_format, options_length, id_length, type_length, data_length) =
            read_header(reader)?;
        proof {
            ByteReader::lemma_rest_advance(old(reader), reader, 12);
        }
        let (options, id, type_value, data) = read_fields(
            reader,
            options_length,
            id_length,
            type_length,
            data_length,
        )?;
        Ok(DimeRecord {
            is_first_record: (first_header_byte / 4) % 2 == 1,
            is_last_record: (first_header_byte / 2) % 2 == 1,
            has_next_chunk: first_header_byte % 2 == 1,
            type_format,
            options,
            id,
            type_value,
            data,
        })
    }
}

/// A record that is read takes at least its twelve-byte header and no more
/// bytes than there are.
pub proof fn lemma_read_record_bounds(s: Seq<u8>)
    ensures
        spec_read_record(s) matches Ok((_, n)) ==> 12 <= n <= s.len(),
{
    reveal(spec_read_record_fields);
    if let Ok(_) = spec_header_check(s) {
        let t = s.skip(12);
        let ol = be_u16(s[2], s[3]);
        if let Ok((o, n1)) = spec_read_record_options(ol, t) {
            lemma_read_opt_string_bounds(be_u16(s[4], s[5]) as int, t.skip(n1));
            if let Ok((i, n2)) = spec_read_opt_string(be_u16(s[4], s[5]) as int, t.skip(n1)) {
                lemma_read_opt_string_bounds(be_u16(s[6], s[7]) as int, t.skip(n1 + n2));
            }
        }
    }
}

/// The UTF-8 encoding of a string is empty exactly when the string is.
pub proof fn lemma_encode_utf8_empty(t: Seq<char>)
    ensures
        (encode_utf8(t).len() == 0) <==> (t.len() == 0),
{
    if t.len() > 0 {
        assert(encode_utf8(t) == encode_scalar(t[0] as u32) + encode_utf8(t.drop_first()));
    }
}

/// Reading back the encoding of an optional string field gives the string,
/// with an empty string coming back absent.
pub proof fn lemma_opt_string_roundtrip(x: Option<Seq<char>>, rest: Seq<u8>)
    ensures
        spec_read_opt_string(opt_string_len(x), opt_string_bytes(x) + rest) == Ok::<
            (Option<Seq<char>>, int),
            DimeErrorView,
        >((normalize_opt_string(x), opt_string_bytes(x).len() as int)),
{
    reveal(spec_read_opt_string);
    match x {
        None => {},
        Some(t) => {
            let b = encode_utf8(t);
            lemma_encode_utf8_empty(t);
            lemma_padded_bytes(b);
            if t.len() > 0 {
                let s = padded_bytes(b) + rest;
                assert(s.subrange(0, b.len() as int) =~= b);
                encode_utf8_valid_utf8(t);
                encode_utf8_decode_utf8(t);
            } else {
                assert(b.len() == 0);
                assert(pad_len(0) == 0);
                assert(padded_bytes(b) =~= Seq::<u8>::empty());
            }
        },
    }
}

/// The header of a record whose fields fit passes the header checks and
/// gives back the record's flags, type format and field lengths.
pub proof fn lemma_header_roundtrip(r: DimeRecordView, tail: Seq<u8>)
    requires
        record_fits(r),
    ensures
        ({
            let s = record_header_bytes(r) + tail;
            &&& spec_header_check(s) == Ok::<TypeFormat, DimeErrorView>(r.type_format)
            &&& be_u16(s[2], s[3]) == (if r.options.is_some() {
                4u16
            } else {
                0u16
            })
            &&& be_u16(s[4], s[5]) == opt_string_len(r.id)
            &&& be_u16(s[6], s[7]) == opt_string_len(r.type_value)
            &&& be_u32(s[8], s[9], s[10], s[11]) == r.data.len()
            &&& (s[0] / 4) % 2 == 1 <==> r.is_first_record
            &&& (s[0] / 2) % 2 == 1 <==> r.is_last_record
            &&& s[0] % 2 == 1 <==> r.has_next_chunk
            &&& s.skip(12) == tail
        }),
{
    let h = record_header_bytes(r);
    let s = h + tail;
    let ol: u16 = if r.options.is_some() { 4 } else { 0 };
    lemma_type_format_code_roundtrip(r.type_format, 0);
    lemma_be_roundtrip(ol, r.data.len() as u32);
    lemma_be_roundtrip(opt_string_len(r.id) as u16, 0);
    lemma_be_roundtrip(opt_string_len(r.type_value) as u16, 0);
    assert(h.len() == 12);
    assert(s[0] == first_header_byte(r));
    assert(s[1] == (type_format_code(r.type_format) * 16) as u8);
    assert(s[2] == u16_be_bytes(ol)[0] && s[3] == u16_be_bytes(ol)[1]);
    assert(s[4] == u16_be_bytes(opt_string_len(r.id) as u16)[0]);
    assert(s[5] == u16_be_bytes(opt_string_len(r.id) as u16)[1]);
    assert(s[6] == u16_be_bytes(opt_string_len(r.type_value) as u16)[0]);
    assert(s[7] == u16_be_bytes(opt_string_len(r.type_value) as u16)[1]);
    assert(s[8] == u32_be_bytes(r.data.len() as u32)[0]);
    assert(s[9] == u32_be_bytes(r.data.len() as u32)[1]);
    assert(s[10] == u32_be_bytes(r.data.len() as u32)[2]);
    assert(s[11] == u32_be_bytes(r.data.len() as u32)[3]);
    assert(s.skip(12) =~= tail);
}

/// The fields of a record whose fields fit are read back from their bytes.
#[verifier::rlimit(100)]
pub proof fn lemma_fields_roundtrip(r: DimeRecordView, rest: Seq<u8>)
    requires
        record_fits(r),
    ensures
        spec_read_record_fields(
            record_fields_bytes(r) + rest,
            if r.options.is_some() {
                4u16
            } else {
                0u16
            },
            opt_string_len(r.id) as u16,
            opt_string_len(r.type_value) as u16,
            r.data.len() as u32,
        ) == Ok::<(RecordFields, int), DimeErrorView>(
            (
                RecordFields {
                    options: r.options,
                    id: normalize_opt_string(r.id),
                    type_value: normalize_opt_string(r.type_value),
                    data: r.data,
                },
                record_fields_bytes(r).len() as int,
            ),
        ),
{
    reveal(spec_read_record_fields);
    let ob = opt_options_bytes(r.options);
    let ib = opt_string_bytes(r.id);
    let tb = opt_string_bytes(r.type_value);
    let db = padded_bytes(r.data);
    let t = record_fields_bytes(r) + rest;
    assert(t =~= ob + (ib + tb + db + rest));
    match r.options {
        Some(o) => {
            lemma_options_roundtrip(o, ib + tb + db + rest);
        },
        None => {},
    }
    let n1 = ob.len() as int;
    assert(t.skip(n1) =~= ib + (tb + db + rest));
    lemma_opt_string_roundtrip(r.id, tb + db + rest);
    let n2 = ib.len() as int;
    assert(t.skip(n1 + n2) =~= tb + (db + rest));
    lemma_opt_string_roundtrip(r.type_value, db + rest);
    let n3 = tb.len() as int;
    let d = t.skip(n1 + n2 + n3);
    assert(d =~= db + rest);
    lemma_padded_bytes(r.data);
    assert(d.subrange(0, r.data.len() as int) =~= r.data);
}

/// Writing a record whose fields fit and reading it back gives the record,
/// with empty ID and TYPE strings coming back absent, and consumes exactly
/// the bytes that were written.
#[verifier::spinoff_prover]
#[verifier::rlimit(30)]
pub proof fn lemma_record_roundtrip(r: DimeRecordView, rest: Seq<u8>)
    requires
        record_fits(r),
    ensures
        spec_read_record(spec_write_record(r) + rest) == Ok::<(DimeRecordView, int), DimeErrorView>(
            (normalize_record(r), spec_write_record(r).len() as int),
        ),
{
    let tail = record_fields_bytes(r) + rest;
    assert(spec_write_record(r) + rest =~= record_header_bytes(r) + tail);
    lemma_header_roundtrip(r, tail);
    lemma_fields_roundtrip(r, rest);
}

/// Appends a padded optional string field.
fn write_opt_string(out: &mut Vec<u8>, value: &Option<String>)
    ensures
        final(out)@ == old(out)@ + opt_string_bytes(opt_chars(*value)),
{
    match value {
        Some(text) => write_padded(out, text.as_str().as_bytes()),
        None => {},
    }
}

/// The value of the length field of an optional string field, if it fits
/// sixteen bits.
fn opt_string_length(value: &Option<String>) -> (r: Option<u16>)
    ensures
        opt_string_len(opt_chars(*value)) <= u16::MAX ==> r == Some(
            opt_string_len(opt_chars(*value)) as u16,
        ),
        opt_string_len(opt_chars(*value)) > u16::MAX ==> r is None,
{
    match value {
        Some(text) => {
            let n = text.as_str().as_bytes().len();
            if n > 65535 {
                None
            } else {
                Some(n as u16)
            }
        },
        None => Some(0),
    }
}

impl DimeRecord {
    /// Appends the twelve header bytes, given field lengths that fit.
    fn write_header(&self, out: &mut Vec<u8>, id_length: u16, type_length: u16)
        requires
            record_fits(self@),
            id_length == opt_string_len(self@.id),
            type_length == opt_string_len(self@.type_value),
        ensures
            final(out)@ == old(out)@ + record_header_bytes(self@),
    {
        let mut first_byte: u8 = 8;
        if self.is_first_record {
            first_byte = first_byte + 4;
        }
        if self.is_last_record {
            first_byte = first_byte + 2;
        }
        if self.has_next_chunk {
            first_byte = first_byte + 1;
        }
        out.push(first_byte);
        out.push(self.type_format.code() * 16);
        let options_length: u16 = if self.options.is_some() { 4 } else { 0 };
        write_u16_be(out, options_length);
        write_u16_be(out, id_length);
        write_u16_be(out, type_length);
        write_u32_be(out, self.data.len() as u32);
        assert(final(out)@ =~= old(out)@ + record_header_bytes(self@));
    }

    /// Appends the fields that follow the header.
    fn write_fields(&self, out: &mut Vec<u8>)
        ensures
            final(out)@ == old(out)@ + record_fields_bytes(self@),
    {
        match &self.options {
            Some(options) => options.write_to(out),
            None => {},
        }
        let ghost o1 = out@;
        write_opt_string(out, &self.id);
        let ghost o2 = out@;
        write_opt_string(out, &self.type_value);
        let ghost o3 = out@;
        write_padded(out, self.data.as_slice());
        assert(final(out)@ =~= old(out)@ + record_fields_bytes(self@));
    }

    /// Appends the encoding of the record; refused, with nothing written,
    /// when the ID, TYPE or data field is longer than its length field
    /// can describe.
    pub fn write_to(&self, out: &mut Vec<u8>) -> (r: Result<(), DimeError>)
        ensures
            record_fits(self@) ==> r is Ok && final(out)@ == old(out)@ + spec_write_record(self@),
            opt_string_len(self@.id) > u16::MAX ==> (r matches Err(e) && e@
                == DimeErrorView::FieldTooLarge("ID"@)),
            opt_string_len(self@.id) <= u16::MAX && opt_string_len(self@.type_value) > u16::MAX
                ==> (r matches Err(e) && e@ == DimeErrorView::FieldTooLarge("TYPE"@)),
            opt_string_len(self@.id) <= u16::MAX && opt_string_len(self@.type_value) <= u16::MAX
                && self@.data.len() > u32::MAX ==> (r matches Err(e) && e@
                == DimeErrorView::FieldTooLarge("DATA"@)),
            r is Err ==> final(out)@ == old(out)@,
    {
        let id_length = match opt_string_length(&self.id) {
            Some(n) => n,
            None => {
                return Err(DimeError::FieldTooLarge("ID"));
            },
        };
        let type_length = match opt_string_length(&self.type_value) {
            Some(n) => n,
            None => {
                return Err(DimeError::FieldTooLarge("TYPE"));
            },
        };
        if self.data.len() > 4294967295 {
            return Err(DimeError::FieldTooLarge("DATA"));
        }
        self.write_header(out, id_length, type_length);
        self.write_fields(out);
        assert(final(out)@ =~= old(out)@ + spec_write_record(self@));
        Ok(())
    }
}

} // verus!
