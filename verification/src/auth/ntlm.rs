use sspi::{
    AcquireCredentialsHandleResult, AuthIdentity, AuthIdentityBuffers, BufferType,
    ClientRequestFlags, CredentialUse, DataRepresentation, Ntlm, SecurityBuffer, SecurityStatus,
    Sspi, SspiImpl, Username,
};
use vstd::prelude::*;

verus! {

/// The NTLM security package of sspi.
#[verifier::external_type_specification]
#[verifier::external_body]
pub struct ExNtlm(sspi::Ntlm);

/// The identity buffers that an NTLM credentials handle holds.
#[verifier::external_type_specification]
#[verifier::external_body]
pub struct ExAuthIdentityBuffers(sspi::AuthIdentityBuffers);

/// A user name as sspi parses it.
#[verifier::external_type_specification]
#[verifier::external_body]
pub struct ExUsername(sspi::Username);

/// A user name with its password.
#[verifier::external_type_specification]
#[verifier::external_body]
pub struct ExAuthIdentity(sspi::AuthIdentity);

/// The status that sspi reports for a step of the handshake.
#[verifier::external_type_specification]
#[verifier::external_body]
pub struct ExSecurityStatus(sspi::SecurityStatus);

/// A fresh NTLM context, with nothing negotiated yet. Nothing is stated of
/// it: its state is sspi's.
pub assume_specification[ sspi::Ntlm::new ]() -> sspi::Ntlm;

/// The status of a handshake step, one variant for each of sspi's.
#[derive(Debug, Clone, Copy, PartialEq, Eq, Structural)]
pub enum HandshakeStatus {
    /// sspi's `Ok`: the context is established.
    Succeeded,
    ContinueNeeded,
    CompleteNeeded,
    CompleteAndContinue,
    LocalLogon,
    ContextExpired,
    IncompleteCredentials,
    Renegotiate,
    NoLsaContext,
}

/// Whether a text holds a character.
pub open spec fn holds_char(s: Seq<char>, c: char) -> bool {
    exists|i: int| 0 <= i < s.len() && s[i] == c
}

/// The index of the first occurrence of a character from index `i` on.
pub open spec fn first_index_from(s: Seq<char>, c: char, i: int) -> Option<int>
    decreases s.len() - i,
{
    if i < 0 || i >= s.len() {
        None
    } else if s[i] == c {
        Some(i)
    } else {
        first_index_from(s, c, i + 1)
    }
}

/// Whether `sspi::Username::parse` accepts a text as a user name.
///
/// A leading `.\` is dropped when a backslash follows it. A name without a
/// backslash is accepted: as a logon name, or as a user principal name
/// whose suffix, after the last `@`, holds neither `@` nor a backslash. A
/// name with a backslash is a down-level logon name, `domain\account` split
/// at the first backslash; it is refused when the account holds another
/// backslash, when the domain is empty and the account holds an `@`, or
/// when the domain holds an `@`.
pub open spec fn spec_username_accepted(text: Seq<char>) -> bool {
    let v = if text.len() >= 2 && text[0] == '.' && text[1] == '\\' && holds_char(
        text.skip(2),
        '\\',
    ) {
        text.skip(2)
    } else {
        text
    };
    match first_index_from(v, '\\', 0) {
        None => true,
        Some(i) => {
            let domain = v.take(i);
            let account = v.skip(i + 1);
            !(holds_char(account, '\\') || (i == 0 && holds_char(account, '@')) || holds_char(
                domain,
                '@',
            ))
        },
    }
}

/// Parses a user name with `sspi::Username::parse`.
///
/// sspi accepts the text exactly as [`spec_username_accepted`] says (its
/// checks in `parse`, `new_down_level_logon_name` and `new_upn`); the only
/// error it has for it displays as "mixed username format".
#[verifier::external_body]
pub(crate) fn parse_username(text: &str) -> (r: Result<Username, String>)
    ensures
        r is Ok <==> spec_username_accepted(text@),
        r matches Err(m) ==> m@ == "mixed username format"@,
{
    match Username::parse(text) {
        Ok(u) => Ok(u),
        Err(e) => Err(format!("{}", e)),
    }
}

/// The identity buffers that sspi's NTLM package keeps as the credentials
/// handle for the user name `name`, as `sspi::Username::parse` reads it, and
/// the password: the account and the domain (or the whole user principal
/// name) and the password, each in UTF-16.
pub uninterp spec fn ntlm_identity_buffers(name: Seq<char>, password: Seq<char>) -> AuthIdentityBuffers;

/// Acquires outbound credentials for the user name `name` and the password
/// with `acquire_credentials_handle`, for use by the NTLM context, and
/// returns the credentials handle that the result carries.
///
/// The name is parsed with `sspi::Username::parse` (its error converted to
/// sspi's error type) and put with the password in an `sspi::AuthIdentity`.
/// For outbound use with an identity given, sspi's NTLM package returns as
/// the handle the buffers that it makes from that identity, which depend on
/// the name and the password alone.
#[verifier::external_body]
pub(crate) fn acquire_credentials(ntlm: &mut Ntlm, name: &str, password: &str) -> (r: Result<
    Option<AuthIdentityBuffers>,
    sspi::Error,
>)
    ensures
        r matches Ok(handle) ==> handle == Some(ntlm_identity_buffers(name@, password@)),
{
    let identity = AuthIdentity { username: Username::parse(name)?, password: password.to_string().into() };
    let result: Result<AcquireCredentialsHandleResult<Option<AuthIdentityBuffers>>, sspi::Error> =
        ntlm.acquire_credentials_handle().with_credential_use(
        CredentialUse::Outbound,
    ).with_auth_data(&identity).execute(ntlm);
    match result {
        Ok(acquired) => Ok(acquired.credentials_handle),
        Err(e) => Err(e),
    }
}

/// Runs one step of `initialize_security_context` on the input token,
/// requesting confidentiality and memory allocated by the package, and
/// returns the output token with sspi's status.
///
/// sspi expects the credentials handle to hold the identity when it answers
/// a challenge; it is handed a handle that holds a copy of the identity.
#[verifier::external_body]
fn initialize_context(
    ntlm: &mut Ntlm,
    credentials: &AuthIdentityBuffers,
    input_token: &[u8],
) -> Result<(Vec<u8>, SecurityStatus), sspi::Error> {
    let mut handle = Some(credentials.clone());
    let mut input = vec![SecurityBuffer::new(input_token.to_vec(), BufferType::Token)];
    let mut output = vec![SecurityBuffer::new(Vec::new(), BufferType::Token)];
    let mut builder = ntlm.initialize_security_context().with_credentials_handle(
        &mut handle,
    ).with_context_requirements(
        ClientRequestFlags::CONFIDENTIALITY | ClientRequestFlags::ALLOCATE_MEMORY,
    ).with_target_data_representation(DataRepresentation::Native).with_input(&mut input).with_output(
        &mut output,
    );
    let result = ntlm.initialize_security_context_impl(&mut builder)?.resolve_to_result()?;
    Ok((output.swap_remove(0).buffer, result.status))
}

/// Converts sspi's status of a handshake step to the library's.
#[verifier::external_body]
fn status_of(status: SecurityStatus) -> HandshakeStatus {
    match status {
        SecurityStatus::Ok => HandshakeStatus::Succeeded,
        SecurityStatus::ContinueNeeded => HandshakeStatus::ContinueNeeded,
        SecurityStatus::CompleteNeeded => HandshakeStatus::CompleteNeeded,
        SecurityStatus::CompleteAndContinue => HandshakeStatus::CompleteAndContinue,
        SecurityStatus::LocalLogon => HandshakeStatus::LocalLogon,
        SecurityStatus::ContextExpired => HandshakeStatus::ContextExpired,
        SecurityStatus::IncompleteCredentials => HandshakeStatus::IncompleteCredentials,
        SecurityStatus::Renegotiate => HandshakeStatus::Renegotiate,
        SecurityStatus::NoLsaContext => HandshakeStatus::NoLsaContext,
    }
}

/// Completes the authentication token with `Sspi::complete_auth_token`.
///
/// sspi's NTLM package does not touch the buffers it is handed, so the
/// token stays as it was.
#[verifier::external_body]
fn complete_token(ntlm: &mut Ntlm, token: &mut Vec<u8>) -> (r: Result<(), sspi::Error>)
    ensures
        final(token)@ == old(token)@,
{
    let mut buffers = [SecurityBuffer::new(std::mem::take(token), BufferType::Token)];
    let result = ntlm.complete_auth_token(&mut buffers);
    *token = std::mem::take(&mut buffers[0].buffer);
    match result {
        Ok(_) => Ok(()),
        Err(e) => Err(e),
    }
}

/// Whether a handshake step must be completed before its token is sent.
pub fn needs_completion(status: HandshakeStatus) -> (r: bool)
    ensures
        r <==> (status == HandshakeStatus::CompleteNeeded || status
            == HandshakeStatus::CompleteAndContinue),
{
    match status {
        HandshakeStatus::CompleteNeeded => true,
        HandshakeStatus::CompleteAndContinue => true,
        _ => false,
    }
}

/// One step of the NTLM handshake: the input token (empty for the first
/// step) goes to the security context, whose output token is completed
/// when its status asks for it, and returned with that status.
///
/// What the token holds, and whether the step succeeds, is the security
/// package's to decide; nothing more is stated of the outcome.
pub fn ntlm_step(
    ntlm: &mut Ntlm,
    credentials: &AuthIdentityBuffers,
    input_token: &[u8],
) -> (r: Result<(Vec<u8>, HandshakeStatus), sspi::Error>) {
    let (mut output, raw_status) = initialize_context(ntlm, credentials, input_token)?;
    let status = status_of(raw_status);
    if needs_completion(status) {
        complete_token(ntlm, &mut output)?;
    }
    Ok((output, status))
}

} // verus!
