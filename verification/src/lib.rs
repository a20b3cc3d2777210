//! Client-side logic for Microsoft SQL Server Analysis Services spoken over
//! XMLA, SOAP and DIME framing on a TCP connection.
pub mod auth;
pub mod connection;
pub mod dime;
pub mod text;
pub mod xml;
pub mod xmla;
