//! NTLM authentication and the sealing of messages with the session's keys.
pub mod confidentiality;
pub mod ntlm;
