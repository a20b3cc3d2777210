//! DIME framing used by the Analysis Services TCP transport.
pub mod error;
pub mod format;
pub mod io;
pub mod message;
pub mod options;
pub mod record;
pub mod xpress;
