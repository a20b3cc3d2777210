use std::time::Duration;
use vstd::prelude::*;

verus! {

/// Seconds allowed for the TCP connection to be established, unless set.
pub const DEFAULT_CONNECT_TIMEOUT_SECS: u64 = 10;

/// Seconds allowed for a read from the server, unless set.
pub const DEFAULT_READ_TIMEOUT_SECS: u64 = 60;

/// The duration of a whole number of seconds, as `Duration::from_secs`
/// builds it.
pub uninterp spec fn duration_from_secs(secs: u64) -> Duration;

/// `Duration::from_secs`.
#[verifier::external_body]
fn seconds(secs: u64) -> (r: Duration)
    ensures
        r == duration_from_secs(secs),
{
    Duration::from_secs(secs)
}

/// Where and how to connect to an Analysis Services server.
#[derive(Debug)]
pub struct SsasTcpConnectionOptions {
    host: String,
    port: u16,
    connect_timeout: Duration,
    read_timeout: Duration,
}

/// The content of [`SsasTcpConnectionOptions`].
pub ghost struct ConnectionOptionsView {
    pub host: Seq<char>,
    pub port: u16,
    pub connect_timeout: Duration,
    pub read_timeout: Duration,
}

impl View for SsasTcpConnectionOptions {
    type V = ConnectionOptionsView;

    closed spec fn view(&self) -> ConnectionOptionsView {
        ConnectionOptionsView {
            host: self.host@,
            port: self.port,
            connect_timeout: self.connect_timeout,
            read_timeout: self.read_timeout,
        }
    }
}

impl SsasTcpConnectionOptions {
    /// Options for a host and a port, with the default timeouts.
    pub fn new(host: String, port: u16) -> (r: SsasTcpConnectionOptions)
        ensures
            r@ == (ConnectionOptionsView {
                host: host@,
                port,
                connect_timeout: duration_from_secs(DEFAULT_CONNECT_TIMEOUT_SECS),
                read_timeout: duration_from_secs(DEFAULT_READ_TIMEOUT_SECS),
            }),
    {
        SsasTcpConnectionOptions {
            host,
            port,
            connect_timeout: seconds(DEFAULT_CONNECT_TIMEOUT_SECS),
            read_timeout: seconds(DEFAULT_READ_TIMEOUT_SECS),
        }
    }

    /// The same options with another connect timeout.
    pub fn with_connect_timeout(self, timeout: Duration) -> (r: SsasTcpConnectionOptions)
        ensures
            r@ == (ConnectionOptionsView { connect_timeout: timeout, ..self@ }),
    {
        SsasTcpConnectionOptions { connect_timeout: timeout, ..self }
    }

    /// The same options with another read timeout.
    pub fn with_read_timeout(self, timeout: Duration) -> (r: SsasTcpConnectionOptions)
        ensures
            r@ == (ConnectionOptionsView { read_timeout: timeout, ..self@ }),
    {
        SsasTcpConnectionOptions { read_timeout: timeout, ..self }
    }

    /// The host to connect to.
    pub fn host(&self) -> (r: &str)
        ensures
            r@ == self@.host,
    {
        self.host.as_str()
    }

    /// The port to connect to.
    pub fn port(&self) -> (r: u16)
        ensures
            r == self@.port,
    {
        self.port
    }

    /// The time allowed for the connection to be established.
    pub fn connect_timeout(&self) -> (r: Duration)
        ensures
            r == self@.connect_timeout,
    {
        self.connect_timeout
    }

    /// The time allowed for a read from the server.
    pub fn read_timeout(&self) -> (r: Duration)
        ensures
            r == self@.read_timeout,
    {
        self.read_timeout
    }
}

/// The NTLM credentials of a domain user.
pub struct NtlmCredentials {
    pub domain: String,
    pub username: String,
    pub password: String,
}

} // verus!
