use crate::dime::format::{type_format_name, TypeFormat};
use crate::dime::io::utf8_error_text;
use crate::text::{append_binary, append_decimal, spec_binary, spec_decimal};
use vstd::string::StringExecFns;
use vstd::prelude::*;

verus! {

/// Errors raised while reading, writing or decoding DIME messages.
#[derive(Debug)]
pub enum DimeError {
    /// The input ended before the field being read was complete.
    UnexpectedEof,
    /// The VERSION field of a record header is not 1.
    InvalidVersion(u8),
    /// The TYPE_T field holds a value that names no type format.
    InvalidTypeFormat(u8),
    /// The OPTIONS_LENGTH field is neither 0 nor 4.
    InvalidOptionsLength(u16),
    /// The options flags byte has one of its three high bits set.
    InvalidOptionsFlags(u8),
    /// One of the three reserved bytes of the options field is not zero.
    InvalidOptionsReservedBytes,
    /// The ID or TYPE field is not valid UTF-8; the decoding error says
    /// where.
    InvalidUtf8(std::string::FromUtf8Error),
    /// A field is longer than its length field can describe.
    FieldTooLarge(&'static str),
    /// The four reserved bits of the second header byte are not zero.
    InvalidReservedBits(u8),
    /// The MB flag is set where it must not be, or clear where it must be.
    OutOfOrder(&'static str),
    /// A record carries a TYPE_T that its place in the message forbids.
    UnexpectedTypeFormat(TypeFormat),
    /// A record after the first carries a TYPE value.
    UnexpectedContentType(String),
    /// The ME and CF flags of a record are both set or both clear.
    InconsistentRecordFlags(&'static str),
    /// Any other violation of the record or compression format.
    RecordFormatError(String),
}

/// What a [`DimeError`] says, with its text as a sequence of characters.
pub ghost enum DimeErrorView {
    UnexpectedEof,
    InvalidVersion(u8),
    InvalidTypeFormat(u8),
    InvalidOptionsLength(u16),
    InvalidOptionsFlags(u8),
    InvalidOptionsReservedBytes,
    InvalidUtf8,
    FieldTooLarge(Seq<char>),
    InvalidReservedBits(u8),
    OutOfOrder(Seq<char>),
    UnexpectedTypeFormat(TypeFormat),
    UnexpectedContentType(Seq<char>),
    InconsistentRecordFlags(Seq<char>),
    RecordFormatError(Seq<char>),
}

impl View for DimeError {
    type V = DimeErrorView;

    open spec fn view(&self) -> DimeErrorView {
        match self {
            DimeError::UnexpectedEof => DimeErrorView::UnexpectedEof,
            DimeError::InvalidVersion(v) => DimeErrorView::InvalidVersion(*v),
            DimeError::InvalidTypeFormat(v) => DimeErrorView::InvalidTypeFormat(*v),
            DimeError::InvalidOptionsLength(v) => DimeErrorView::InvalidOptionsLength(*v),
            DimeError::InvalidOptionsFlags(v) => DimeErrorView::InvalidOptionsFlags(*v),
            DimeError::InvalidOptionsReservedBytes => DimeErrorView::InvalidOptionsReservedBytes,
            DimeError::InvalidUtf8(_) => DimeErrorView::InvalidUtf8,
            DimeError::FieldTooLarge(s) => DimeErrorView::FieldTooLarge(s@),
            DimeError::InvalidReservedBits(v) => DimeErrorView::InvalidReservedBits(*v),
            DimeError::OutOfOrder(s) => DimeErrorView::OutOfOrder(s@),
            DimeError::UnexpectedTypeFormat(t) => DimeErrorView::UnexpectedTypeFormat(*t),
            DimeError::UnexpectedContentType(s) => DimeErrorView::UnexpectedContentType(s@),
            DimeError::InconsistentRecordFlags(s) => DimeErrorView::InconsistentRecordFlags(s@),
            DimeError::RecordFormatError(s) => DimeErrorView::RecordFormatError(s@),
        }
    }
}

/// The text that describes an error; for invalid UTF-8 this is the start of
/// the text, which goes on with the decoding error's own description.
pub open spec fn dime_error_message(e: DimeErrorView) -> Seq<char> {
    match e {
        DimeErrorView::UnexpectedEof => "I/O error: failed to fill whole buffer"@,
        DimeErrorView::InvalidVersion(v) => "unsupported DIME version: "@ + spec_decimal(v as nat),
        DimeErrorView::InvalidTypeFormat(v) => "invalid DIME type format: "@ + spec_decimal(
            v as nat,
        ),
        DimeErrorView::InvalidOptionsLength(v) => "invalid DIME options length: "@ + spec_decimal(
            v as nat,
        ),
        DimeErrorView::InvalidOptionsFlags(v) => "invalid DIME options flags: 0b"@ + spec_binary(
            v as nat,
            8,
        ),
        DimeErrorView::InvalidOptionsReservedBytes => "DIME options reserved bytes are not zero"@,
        DimeErrorView::InvalidUtf8 => "invalid UTF-8: "@,
        DimeErrorView::FieldTooLarge(s) => "DIME field is too large: "@ + s,
        DimeErrorView::InvalidReservedBits(v) => "invalid DIME reserved bits: 0b"@ + spec_binary(
            v as nat,
            4,
        ),
        DimeErrorView::OutOfOrder(s) => "DIME records out of order: "@ + s,
        DimeErrorView::UnexpectedTypeFormat(t) => "unexpected DIME type format: "@
            + type_format_name(t),
        DimeErrorView::UnexpectedContentType(s) => "unexpected DIME content type: "@ + s,
        DimeErrorView::InconsistentRecordFlags(s) => s,
        DimeErrorView::RecordFormatError(s) => s,
    }
}

impl DimeError {
    /// The text that describes this error.
    pub fn message(&self) -> (r: String)
        ensures
            !(self@ is InvalidUtf8) ==> r@ == dime_error_message(self@),
            self@ is InvalidUtf8 ==> r@.len() >= dime_error_message(self@).len() && r@.subrange(
                0,
                dime_error_message(self@).len() as int,
            ) == dime_error_message(self@),
    {
        match self {
            DimeError::UnexpectedEof => String::from_str("I/O error: failed to fill whole buffer"),
            DimeError::InvalidVersion(v) => {
                let mut s = String::from_str("unsupported DIME version: ");
                append_decimal(&mut s, *v as u64);
                s
            },
            DimeError::InvalidTypeFormat(v) => {
                let mut s = String::from_str("invalid DIME type format: ");
                append_decimal(&mut s, *v as u64);
                s
            },
            DimeError::InvalidOptionsLength(v) => {
                let mut s = String::from_str("invalid DIME options length: ");
                append_decimal(&mut s, *v as u64);
                s
            },
            DimeError::InvalidOptionsFlags(v) => {
                let mut s = String::from_str("invalid DIME options flags: 0b");
                append_binary(&mut s, *v as u64, 8);
                s
            },
            DimeError::InvalidOptionsReservedBytes => String::from_str(
                "DIME options reserved bytes are not zero",
            ),
            DimeError::InvalidUtf8(e) => {
                let mut s = String::from_str("invalid UTF-8: ");
                let detail = utf8_error_text(e);
                s.append(detail.as_str());
                proof {
                    assert(s@.subrange(0, dime_error_message(self@).len() as int)
                        =~= dime_error_message(self@));
                }
                s
            },
            DimeError::FieldTooLarge(f) => {
                let mut s = String::from_str("DIME field is too large: ");
                s.append(f);
                s
            },
            DimeError::InvalidReservedBits(v) => {
                let mut s = String::from_str("invalid DIME reserved bits: 0b");
                append_binary(&mut s, *v as u64, 4);
                s
            },
            DimeError::OutOfOrder(f) => {
                let mut s = String::from_str("DIME records out of order: ");
                s.append(f);
                s
            },
            DimeError::UnexpectedTypeFormat(t) => {
                let mut s = String::from_str("unexpected DIME type format: ");
                s.append(t.as_str());
                s
            },
            DimeError::UnexpectedContentType(c) => {
                let mut s = String::from_str("unexpected DIME content type: ");
                s.append(c.as_str());
                s
            },
            DimeError::InconsistentRecordFlags(f) => String::from_str(f),
            DimeError::RecordFormatError(m) => m.clone(),
        }
    }
}

} // verus!
