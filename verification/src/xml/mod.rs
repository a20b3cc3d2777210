//! An XML element tree as the library reads it, the parser that builds it,
//! and the writer that produces SOAP requests.
pub mod parse;
pub mod tree;
pub mod writer;
