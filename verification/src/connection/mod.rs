//! Connection options, credentials, errors, and the request and response
//! logic of an Analysis Services session.
pub mod error;
pub mod exchange;
pub mod handshake;
pub mod options;
pub mod session;
