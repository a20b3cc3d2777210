use crate::dime::error::{DimeError, DimeErrorView};
use vstd::prelude::*;

verus! {

/// The error type of the SSPI implementation.
#[verifier::external_type_specification]
#[verifier::external_body]
pub struct ExSspiError(sspi::Error);

/// The error that `std::str::from_utf8` reports for bytes that are not UTF-8.
#[verifier::external_type_specification]
#[verifier::external_body]
pub struct ExUtf8Error(std::str::Utf8Error);

/// Errors of an Analysis Services session.
#[derive(Debug)]
pub enum XmlaError {
    /// Reading from or writing to the connection failed; the text of the
    /// I/O error.
    Io(String),
    /// A DIME message could not be read or written.
    Dime(DimeError),
    /// NTLM authentication or message sealing failed.
    Sspi(sspi::Error),
    /// A response is not valid UTF-8; the decoding error says where.
    Utf8(std::str::Utf8Error),
    /// A response is not well-formed XML.
    Xml(roxmltree::Error),
    /// The user name is not one that NTLM accepts.
    InvalidUsername(String),
    /// A request could not be serialized.
    SerializationError(String),
    /// The server answered something other than the protocol expects.
    ProtocolError(String),
    /// A response does not have the shape that the protocol gives it.
    ParsingError(String),
}

/// What kind of error an [`XmlaError`] is, and its text where it carries one.
pub ghost enum XmlaErrorView {
    Io(Seq<char>),
    Dime(DimeErrorView),
    Sspi,
    Utf8,
    Xml,
    InvalidUsername(Seq<char>),
    SerializationError(Seq<char>),
    ProtocolError(Seq<char>),
    ParsingError(Seq<char>),
}

impl View for XmlaError {
    type V = XmlaErrorView;

    open spec fn view(&self) -> XmlaErrorView {
        match self {
            XmlaError::Io(s) => XmlaErrorView::Io(s@),
            XmlaError::Dime(e) => XmlaErrorView::Dime(e@),
            XmlaError::Sspi(_) => XmlaErrorView::Sspi,
            XmlaError::Utf8(_) => XmlaErrorView::Utf8,
            XmlaError::Xml(_) => XmlaErrorView::Xml,
            XmlaError::InvalidUsername(s) => XmlaErrorView::InvalidUsername(s@),
            XmlaError::SerializationError(s) => XmlaErrorView::SerializationError(s@),
            XmlaError::ProtocolError(s) => XmlaErrorView::ProtocolError(s@),
            XmlaError::ParsingError(s) => XmlaErrorView::ParsingError(s@),
        }
    }
}

} // verus!
