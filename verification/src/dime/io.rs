use crate::dime::error::{DimeError, DimeErrorView};
use vstd::prelude::*;
use vstd::utf8::*;

verus! {

broadcast use vstd::seq_lib::group_seq_properties;

/// Number of zero bytes that follow a field of `n` bytes, so that the next
/// field starts at a multiple of four.
pub open spec fn pad_len(n: int) -> int {
    (4 - n % 4) % 4
}

/// Length of a field of `n` bytes together with its padding.
pub open spec fn padded_len(n: int) -> int {
    n + pad_len(n)
}

/// A field followed by its zero padding.
pub open spec fn padded_bytes(s: Seq<u8>) -> Seq<u8> {
    s + Seq::new(pad_len(s.len() as int) as nat, |i: int| 0u8)
}

/// Big-endian value of two bytes.
pub open spec fn be_u16(b0: u8, b1: u8) -> u16 {
    (b0 * 256 + b1) as u16
}

/// Big-endian value of four bytes.
pub open spec fn be_u32(b0: u8, b1: u8, b2: u8, b3: u8) -> u32 {
    (b0 * 16777216 + b1 * 65536 + b2 * 256 + b3) as u32
}

/// Big-endian bytes of a 16-bit value.
pub open spec fn u16_be_bytes(v: u16) -> Seq<u8> {
    seq![(v / 256) as u8, (v % 256) as u8]
}

/// Big-endian bytes of a 32-bit value.
pub open spec fn u32_be_bytes(v: u32) -> Seq<u8> {
    seq![
        (v / 16777216) as u8,
        ((v / 65536) % 256) as u8,
        ((v / 256) % 256) as u8,
        (v % 256) as u8,
    ]
}

/// The bytes of `padded_bytes(s)` are those of `s`, then zeros.
pub proof fn lemma_padded_bytes(s: Seq<u8>)
    ensures
        padded_bytes(s).len() == padded_len(s.len() as int),
        padded_bytes(s).subrange(0, s.len() as int) == s,
        0 <= pad_len(s.len() as int) < 4,
        padded_len(s.len() as int) % 4 == 0,
{
    assert(padded_bytes(s).subrange(0, s.len() as int) =~= s);
}

/// Reading the big-endian bytes of a value gives the value back.
pub proof fn lemma_be_roundtrip(a: u16, b: u32)
    ensures
        be_u16(u16_be_bytes(a)[0], u16_be_bytes(a)[1]) == a,
        be_u32(u32_be_bytes(b)[0], u32_be_bytes(b)[1], u32_be_bytes(b)[2], u32_be_bytes(b)[3])
            == b,
{
}

/// The error that `String::from_utf8` reports for bytes that are not UTF-8.
#[verifier::external_type_specification]
#[verifier::external_body]
pub struct ExFromUtf8Error(std::string::FromUtf8Error);

/// Converts bytes that are expected to be UTF-8 into a `String`.
///
/// Calls `String::from_utf8`, whose documentation says that it succeeds
/// exactly on valid UTF-8 and that the string then holds the characters
/// that the bytes encode; otherwise it returns the error that says where
/// the bytes stop being UTF-8.
#[verifier::external_body]
pub(crate) fn string_from_utf8(bytes: Vec<u8>) -> (r: Result<String, std::string::FromUtf8Error>)
    ensures
        r is Ok <==> valid_utf8(bytes@),
        r matches Ok(s) ==> s@ == decode_utf8(bytes@),
{
    String::from_utf8(bytes)
}

/// The text of a UTF-8 decoding error, as its `Display` implementation
/// writes it (which bytes are invalid and where they start).  Nothing is
/// stated of that text.
#[verifier::external_body]
pub(crate) fn utf8_error_text(e: &std::string::FromUtf8Error) -> String {
    format!("{}", e)
}

/// A cursor over a byte buffer from which DIME fields are read.
pub struct ByteReader<'a> {
    data: &'a [u8],
    pos: usize,
}

impl<'a> ByteReader<'a> {
    /// All bytes of the buffer, read or not.
    pub closed spec fn input(&self) -> Seq<u8> {
        self.data@
    }

    /// Number of bytes read so far.
    pub closed spec fn offset(&self) -> int {
        self.pos as int
    }

    /// The position lies within the buffer.
    pub open spec fn wf(&self) -> bool {
        0 <= self.offset() <= self.input().len()
    }

    /// The bytes not read yet.
    pub open spec fn rest(&self) -> Seq<u8> {
        self.input().subrange(self.offset(), self.input().len() as int)
    }

    /// After moving `n` bytes further, what is left is what was left without
    /// its first `n` bytes.
    pub proof fn lemma_rest_advance(a: &ByteReader, b: &ByteReader, n: int)
        requires
            a.wf(),
            b.input() == a.input(),
            b.offset() == a.offset() + n,
            0 <= n <= a.rest().len(),
        ensures
            b.wf(),
            b.rest() == a.rest().skip(n),
    {
        assert(b.rest() =~= a.rest().skip(n));
    }

    /// A reader positioned at the start of `data`.
    pub fn new(data: &'a [u8]) -> (r: ByteReader<'a>)
        ensures
            r.input() == data@,
            r.offset() == 0,
            r.wf(),
            r.rest() == data@,
    {
        ByteReader { data, pos: 0 }
    }

    /// Number of bytes read so far.
    pub fn position(&self) -> (r: usize)
        ensures
            r == self.offset(),
    {
        self.pos
    }

    /// Number of bytes not read yet.
    pub fn remaining(&self) -> (r: usize)
        requires
            self.wf(),
        ensures
            r == self.rest().len(),
    {
        self.data.len() - self.pos
    }

    /// Reads one byte.
    pub fn read_u8(&mut self) -> (r: Result<u8, DimeError>)
        requires
            old(self).wf(),
        ensures
            final(self).wf(),
            final(self).input() == old(self).input(),
            old(self).rest().len() >= 1 ==> r == Ok::<u8, DimeError>(old(self).rest()[0])
                && final(self).offset() == old(self).offset() + 1,
            old(self).rest().len() < 1 ==> r == Err::<u8, DimeError>(DimeError::UnexpectedEof)
                && final(self).offset() == old(self).offset(),
    {
        if self.pos < self.data.len() {
            let b = self.data[self.pos];
            self.pos = self.pos + 1;
            Ok(b)
        } else {
            Err(DimeError::UnexpectedEof)
        }
    }

    /// Reads a big-endian 16-bit value.
    pub fn read_u16_be(&mut self) -> (r: Result<u16, DimeError>)
        requires
            old(self).wf(),
        ensures
            final(self).wf(),
            final(self).input() == old(self).input(),
            old(self).rest().len() >= 2 ==> r == Ok::<u16, DimeError>(
                be_u16(old(self).rest()[0], old(self).rest()[1]),
            ) && final(self).offset() == old(self).offset() + 2,
            old(self).rest().len() < 2 ==> r == Err::<u16, DimeError>(DimeError::UnexpectedEof)
                && final(self).offset() == old(self).offset(),
    {
        if self.data.len() - self.pos >= 2 {
            let b0 = self.data[self.pos];
            let b1 = self.data[self.pos + 1];
            self.pos = self.pos + 2;
            Ok((b0 as u16) * 256 + (b1 as u16))
        } else {
            Err(DimeError::UnexpectedEof)
        }
    }

    /// Reads a big-endian 32-bit value.
    pub fn read_u32_be(&mut self) -> (r: Result<u32, DimeError>)
        requires
            old(self).wf(),
        ensures
            final(self).wf(),
            final(self).input() == old(self).input(),
            old(self).rest().len() >= 4 ==> r == Ok::<u32, DimeError>(
                be_u32(
                    old(self).rest()[0],
                    old(self).rest()[1],
                    old(self).rest()[2],
                    old(self).rest()[3],
                ),
            ) && final(self).offset() == old(self).offset() + 4,
            old(self).rest().len() < 4 ==> r == Err::<u32, DimeError>(DimeError::UnexpectedEof)
                && final(self).offset() == old(self).offset(),
    {
        if self.data.len() - self.pos >= 4 {
            let b0 = self.data[self.pos];
            let b1 = self.data[self.pos + 1];
            let b2 = self.data[self.pos + 2];
            let b3 = self.data[self.pos + 3];
            self.pos = self.pos + 4;
            Ok((b0 as u32) * 16777216 + (b1 as u32) * 65536 + (b2 as u32) * 256 + (b3 as u32))
        } else {
            Err(DimeError::UnexpectedEof)
        }
    }

    /// Reads a field of `length` bytes and the zero to three padding bytes
    /// that bring it to a multiple of four; returns the field alone.
    pub fn read_padded(&mut self, length: usize) -> (r: Result<Vec<u8>, DimeError>)
        requires
            old(self).wf(),
        ensures
            final(self).wf(),
            final(self).input() == old(self).input(),
            old(self).rest().len() >= padded_len(length as int) ==> (r matches Ok(v) && v@
                == old(self).rest().subrange(0, length as int) && final(self).offset()
                == old(self).offset() + padded_len(length as int)),
            old(self).rest().len() < padded_len(length as int) ==> (r matches Err(e)
                && e == DimeError::UnexpectedEof && final(self).offset() == old(self).offset()),
    {
        let padding_length = (4 - length % 4) % 4;
        let available = self.data.len() - self.pos;
        if length > available || padding_length > available - length {
            return Err(DimeError::UnexpectedEof);
        }
        let start = self.pos;
        let bytes = vstd::slice::slice_to_vec(&self.data[start..start + length]);
        self.pos = start + length + padding_length;
        assert(bytes@ =~= old(self).rest().subrange(0, length as int));
        Ok(bytes)
    }

    /// Reads a padded UTF-8 string field of `length` bytes; a length of zero
    /// stands for an absent field and reads nothing.
    pub fn read_padded_optional_string(&mut self, length: usize) -> (r: Result<
        Option<String>,
        DimeError,
    >)
        requires
            old(self).wf(),
        ensures
            final(self).wf(),
            final(self).input() == old(self).input(),
            match spec_read_opt_string(length as int, old(self).rest()) {
                Ok((v, n)) => r matches Ok(o) && opt_chars(o) == v && final(self).offset()
                    == old(self).offset() + n,
                Err(e) => r matches Err(e2) && e2@ == e,
            },
            spec_read_opt_string(length as int, old(self).rest()) matches Err(
                DimeErrorView::InvalidUtf8,
            ) ==> final(self).offset() == old(self).offset() + padded_len(length as int),
    {
        reveal(spec_read_opt_string);
        if length == 0 {
            return Ok(None);
        }
        let bytes = self.read_padded(length)?;
        match string_from_utf8(bytes) {
            Ok(s) => Ok(Some(s)),
            Err(e) => Err(DimeError::InvalidUtf8(e)),
        }
    }
}

/// The characters of an optional string.
pub open spec fn opt_chars(s: Option<String>) -> Option<Seq<char>> {
    match s {
        Some(t) => Some(t@),
        None => None,
    }
}

/// Reading a padded optional string field of `length` bytes from `s`: the
/// string, absent for a length of zero, and the number of bytes consumed.
#[verifier::opaque]
pub open spec fn spec_read_opt_string(length: int, s: Seq<u8>) -> Result<
    (Option<Seq<char>>, int),
    DimeErrorView,
> {
    if length == 0 {
        Ok((None, 0))
    } else if s.len() < padded_len(length) {
        Err(DimeErrorView::UnexpectedEof)
    } else if !valid_utf8(s.subrange(0, length)) {
        Err(DimeErrorView::InvalidUtf8)
    } else {
        Ok((Some(decode_utf8(s.subrange(0, length))), padded_len(length)))
    }
}

/// A string field that is read consumes no more bytes than there are.
pub proof fn lemma_read_opt_string_bounds(length: int, s: Seq<u8>)
    requires
        0 <= length,
    ensures
        spec_read_opt_string(length, s) matches Ok((_, n)) ==> 0 <= n <= s.len(),
{
    reveal(spec_read_opt_string);
}

/// Appends the big-endian bytes of a 16-bit value.
pub fn write_u16_be(out: &mut Vec<u8>, value: u16)
    ensures
        final(out)@ == old(out)@ + u16_be_bytes(value),
{
    out.push((value / 256) as u8);
    out.push((value % 256) as u8);
    assert(final(out)@ =~= old(out)@ + u16_be_bytes(value));
}

/// Appends the big-endian bytes of a 32-bit value.
pub fn write_u32_be(out: &mut Vec<u8>, value: u32)
    ensures
        final(out)@ == old(out)@ + u32_be_bytes(value),
{
    out.push((value / 16777216) as u8);
    out.push(((value / 65536) % 256) as u8);
    out.push(((value / 256) % 256) as u8);
    out.push((value % 256) as u8);
    assert(final(out)@ =~= old(out)@ + u32_be_bytes(value));
}

/// Appends bytes one by one.
pub fn append_bytes(out: &mut Vec<u8>, value: &[u8])
    ensures
        final(out)@ == old(out)@ + value@,
{
    let mut i: usize = 0;
    while i < value.len()
        invariant
            i <= value@.len(),
            out@ == old(out)@ + value@.subrange(0, i as int),
        decreases value@.len() - i,
    {
        out.push(value[i]);
        i = i + 1;
        assert(out@ =~= old(out)@ + value@.subrange(0, i as int));
    }
    assert(value@.subrange(0, value@.len() as int) =~= value@);
}

/// Appends a field and the zero bytes that pad it to a multiple of four.
pub fn write_padded(out: &mut Vec<u8>, value: &[u8])
    ensures
        final(out)@ == old(out)@ + padded_bytes(value@),
{
    append_bytes(out, value);
    let padding_length = (4 - value.len() % 4) % 4;
    let mut i: usize = 0;
    while i < padding_length
        invariant
            i <= padding_length,
            padding_length == pad_len(value@.len() as int),
            out@ == old(out)@ + value@ + Seq::new(i as nat, |k: int| 0u8),
        decreases padding_length - i,
    {
        out.push(0u8);
        i = i + 1;
        assert(out@ =~= old(out)@ + value@ + Seq::new(i as nat, |k: int| 0u8));
    }
    assert(old(out)@ + value@ + Seq::new(i as nat, |k: int| 0u8) =~= old(out)@ + padded_bytes(
        value@,
    ));
}

/// Appends an optional string field, padded; an absent field writes nothing.
pub fn write_padded_optional_string(out: &mut Vec<u8>, value: Option<&str>)
    ensures
        match value {
            Some(text) => final(out)@ == old(out)@ + padded_bytes(encode_utf8(text@)),
            None => final(out)@ == old(out)@,
        },
{
    match value {
        Some(text) => write_padded(out, text.as_bytes()),
        None => {},
    }
}

} // verus!
