//! XMLA requests and their SOAP serialization, and the parsing of XMLA
//! responses.
pub mod auth;
pub mod dataset;
pub mod discover;
pub mod execute;
pub mod props;
pub mod responses;
pub mod restrictions;
pub mod soap;
pub mod values_map;
