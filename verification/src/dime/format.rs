use crate::dime::error::{DimeError, DimeErrorView};
use vstd::prelude::*;

verus! {

/// The TYPE_T field of a DIME record header.
#[derive(Debug, Clone, Copy, PartialEq, Eq, Structural)]
pub enum TypeFormat {
    /// TYPE_T = 0x00
    Unchanged,
    /// TYPE_T = 0x01
    MediaType,
    /// TYPE_T = 0x02
    AbsoluteUri,
    /// TYPE_T = 0x03
    Unknown,
    /// TYPE_T = 0x04
    NoType,
}

/// The four-bit code that stands for a type format in a record header.
pub open spec fn type_format_code(format: TypeFormat) -> u8 {
    match format {
        TypeFormat::Unchanged => 0,
        TypeFormat::MediaType => 1,
        TypeFormat::AbsoluteUri => 2,
        TypeFormat::Unknown => 3,
        TypeFormat::NoType => 4,
    }
}

/// The type format that a code stands for, if any.
pub open spec fn type_format_of_code(code: u8) -> Option<TypeFormat> {
    if code == 0 {
        Some(TypeFormat::Unchanged)
    } else if code == 1 {
        Some(TypeFormat::MediaType)
    } else if code == 2 {
        Some(TypeFormat::AbsoluteUri)
    } else if code == 3 {
        Some(TypeFormat::Unknown)
    } else if code == 4 {
        Some(TypeFormat::NoType)
    } else {
        None
    }
}

impl TypeFormat {
    /// Decodes a TYPE_T code; codes above 4 are refused.
    pub fn try_from(value: u8) -> (r: Result<TypeFormat, DimeError>)
        ensures
            match type_format_of_code(value) {
                Some(f) => r == Ok::<TypeFormat, DimeError>(f),
                None => r matches Err(e) && e@ == DimeErrorView::InvalidTypeFormat(value),
            },
    {
        match value {
            0 => Ok(TypeFormat::Unchanged),
            1 => Ok(TypeFormat::MediaType),
            2 => Ok(TypeFormat::AbsoluteUri),
            3 => Ok(TypeFormat::Unknown),
            4 => Ok(TypeFormat::NoType),
            _ => Err(DimeError::InvalidTypeFormat(value)),
        }
    }

    /// The TYPE_T code of this format.
    pub fn code(&self) -> (r: u8)
        ensures
            r == type_format_code(*self),
            r < 5,
    {
        match self {
            TypeFormat::Unchanged => 0,
            TypeFormat::MediaType => 1,
            TypeFormat::AbsoluteUri => 2,
            TypeFormat::Unknown => 3,
            TypeFormat::NoType => 4,
        }
    }

    /// The display name of this format.
    pub fn as_str(&self) -> (r: &'static str)
        ensures
            r@ == type_format_name(*self),
    {
        match self {
            TypeFormat::Unchanged => "Unchanged",
            TypeFormat::MediaType => "MediaType",
            TypeFormat::AbsoluteUri => "AbsoluteUri",
            TypeFormat::Unknown => "Unknown",
            TypeFormat::NoType => "NoType",
        }
    }
}

/// The display name of a type format.
pub open spec fn type_format_name(format: TypeFormat) -> Seq<char> {
    match format {
        TypeFormat::Unchanged => "Unchanged"@,
        TypeFormat::MediaType => "MediaType"@,
        TypeFormat::AbsoluteUri => "AbsoluteUri"@,
        TypeFormat::Unknown => "Unknown"@,
        TypeFormat::NoType => "NoType"@,
    }
}

/// Decoding the code of a format gives the format back, and every code that
/// decodes is the code of what it decodes to.
pub proof fn lemma_type_format_code_roundtrip(format: TypeFormat, code: u8)
    ensures
        type_format_of_code(type_format_code(format)) == Some(format),
        type_format_of_code(code) matches Some(f) ==> type_format_code(f) == code,
{
}

} // verus!
