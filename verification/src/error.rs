//! The errors that the proxy raises.
use vstd::prelude::*;

verus! {

/// What sort of failure an error reports: the kinds of I/O errors.
#[derive(Debug, Clone, Copy, PartialEq, Eq, Structural)]
pub enum ErrorKind {
    NotFound,
    PermissionDenied,
    ConnectionRefused,
    ConnectionReset,
    HostUnreachable,
    NetworkUnreachable,
    ConnectionAborted,
    NotConnected,
    AddrInUse,
    AddrNotAvailable,
    NetworkDown,
    BrokenPipe,
    AlreadyExists,
    WouldBlock,
    NotADirectory,
    IsADirectory,
    DirectoryNotEmpty,
    ReadOnlyFilesystem,
    StaleNetworkFileHandle,
    InvalidInput,
    InvalidData,
    TimedOut,
    WriteZero,
    StorageFull,
    NotSeekable,
    QuotaExceeded,
    FileTooLarge,
    ResourceBusy,
    ExecutableFileBusy,
    Deadlock,
    CrossesDevices,
    TooManyLinks,
    InvalidFilename,
    ArgumentListTooLong,
    Interrupted,
    Unsupported,
    UnexpectedEof,
    OutOfMemory,
    Other,
    /// A kind of the operating system's that has no name
    Uncategorized,
}

/// An error: its kind and its text.
#[derive(Debug)]
pub struct ProxyError {
    pub kind: ErrorKind,
    pub message: String,
}

/// The contents of an error.
pub struct ErrorView {
    pub kind: ErrorKind,
    pub message: Seq<char>,
}

impl View for ProxyError {
    type V = ErrorView;

    open spec fn view(&self) -> ErrorView {
        ErrorView { kind: self.kind, message: self.message@ }
    }
}

impl ProxyError {
    /// An error of the given kind and text.
    pub fn new(kind: ErrorKind, message: String) -> (error: ProxyError)
        ensures
            error@ == (ErrorView { kind, message: message@ }),
    {
        ProxyError { kind, message }
    }

    /// The kind of the error.
    pub fn kind(&self) -> (kind: ErrorKind)
        ensures
            kind == self@.kind,
    {
        self.kind
    }
}

/// A result with its error taken by its contents.
pub open spec fn result_view<T>(result: Result<T, ProxyError>) -> Result<T, ErrorView> {
    match result {
        Ok(value) => Ok(value),
        Err(error) => Err(error@),
    }
}

/// The contents of an error are its kind and its text, and a result is seen as what it is.
pub proof fn lemma_error_contents<T>(error: ProxyError, value: T)
    ensures
        error@.kind == error.kind,
        error@.message == error.message@,
        result_view(Ok::<T, ProxyError>(value)) == Ok::<T, ErrorView>(value),
        result_view(Err::<T, ProxyError>(error)) == Err::<T, ErrorView>(
            ErrorView { kind: error.kind, message: error.message@ },
        ),
{
}

} // verus!
