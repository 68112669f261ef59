//! What the program decides as it starts and as it accepts a client.
use crate::conproto::ProxyRequest;
use crate::error::{ErrorKind, ErrorView, ProxyError};
use vstd::prelude::*;
use vstd::string::*;

verus! {

/// Default proxy port
pub const DEFAULT_PORT: u32 = 1337;

/// Default TCP connection timeout in seconds
pub const DEFAULT_TIMEOUT_SECS: u64 = 60;

/// The log filter to fall back on, given whether verbose logging is asked for and whether the
/// environment names a filter.
pub open spec fn fallback_filter(verbose: bool, filter_in_environment: bool) -> Option<Seq<char>> {
    if verbose {
        Some("debug"@)
    } else if filter_in_environment {
        None
    } else {
        Some("info"@)
    }
}

/// The log filter to fall back on; none where the environment alone decides.
///
/// The environment alone decides where it names a filter and no verbose logging is asked for.
pub fn default_log_filter(verbose: bool, filter_in_environment: bool) -> (filter: Option<String>)
    ensures
        match filter {
            Some(level) => fallback_filter(verbose, filter_in_environment) == Some(level@),
            None => fallback_filter(verbose, filter_in_environment) is None,
        },
{
    if !verbose && filter_in_environment {
        None
    } else if verbose {
        Some("debug".to_owned())
    } else {
        Some("info".to_owned())
    }
}

/// The contents of the error for a policy file that could not be loaded.
pub open spec fn load_failure(policy_file: Seq<char>, error: Seq<char>) -> ErrorView {
    ErrorView {
        kind: ErrorKind::InvalidData,
        message: "Failed to load policy file '"@ + policy_file + "': "@ + error,
    }
}

/// The error for a policy file that could not be loaded.
pub fn policy_load_error(policy_file: &str, error: &str) -> (raised: ProxyError)
    ensures
        raised@ == load_failure(policy_file@, error@),
{
    let mut message = "Failed to load policy file '".to_owned();
    message.append(policy_file);
    message.append("': ");
    message.append(error);
    ProxyError::new(ErrorKind::InvalidData, message)
}

/// The contents of the error for a vsock address that could not be bound.
pub open spec fn bind_failure(cause: ErrorView) -> ErrorView {
    ErrorView { kind: cause.kind, message: "Failed to bind vsock: "@ + cause.message }
}

/// The error for a vsock address that could not be bound: it keeps the kind of the cause.
pub fn bind_error(cause: &ProxyError) -> (raised: ProxyError)
    ensures
        raised@ == bind_failure(cause@),
{
    let mut message = "Failed to bind vsock: ".to_owned();
    message.append(&cause.message);
    ProxyError::new(cause.kind(), message)
}

/// The server that a client is connected to, given the one that it requests.
pub open spec fn chosen_server(requested: Option<Seq<char>>, configured: Seq<char>) -> Seq<char> {
    match requested {
        Some(server) => server,
        None => configured,
    }
}

/// The server that a client is connected to: the one that it requests, or, where clients make no
/// requests, the configured one.
pub fn server_address(request: Option<ProxyRequest>, configured: &str) -> (addr: String)
    ensures
        addr@ == chosen_server(
            match request {
                Some(request) => Some(request.server_addr@),
                None => None,
            },
            configured@,
        ),
{
    match request {
        Some(request) => request.server_addr,
        None => configured.to_owned(),
    }
}

/// What is asked for on the command line counts before the environment, and the environment before
/// what is built in.
pub proof fn lemma_log_filter(verbose: bool, filter_in_environment: bool)
    ensures
        verbose ==> fallback_filter(verbose, filter_in_environment) == Some("debug"@),
        !verbose && filter_in_environment ==> fallback_filter(verbose, filter_in_environment)
            == None::<Seq<char>>,
        !verbose && !filter_in_environment ==> fallback_filter(verbose, filter_in_environment)
            == Some("info"@),
{
}

/// A start that fails says what failed, and how; the kind of the error is that of the cause where
/// the operating system gave it.
pub proof fn lemma_start_failures(policy_file: Seq<char>, error: Seq<char>, cause: ErrorView)
    ensures
        load_failure(policy_file, error).kind is InvalidData,
        load_failure(policy_file, error).message == "Failed to load policy file '"@ + policy_file
            + "': "@ + error,
        bind_failure(cause).kind == cause.kind,
        bind_failure(cause).message == "Failed to bind vsock: "@ + cause.message,
{
}

/// A client that requests a server is connected to that one, whatever is configured; one that
/// requests none, to the configured one.
pub proof fn lemma_requested_server_is_chosen(server: Seq<char>, configured: Seq<char>)
    ensures
        chosen_server(Some(server), configured) == server,
        chosen_server(None, configured) == configured,
{
}

/// The built-in port and timeout.
pub proof fn lemma_defaults()
    ensures
        DEFAULT_PORT == 1337,
        DEFAULT_TIMEOUT_SECS == 60,
{
}

} // verus!
