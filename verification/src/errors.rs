//! Errors: the service's own error type, the answer type of table
//! operations, and the I/O errors that the service hands to its transport.

use vstd::prelude::*;

verus! {

/// `std::io::Error`, carried through as an opaque value.
#[verifier::external_type_specification]
#[verifier::external_body]
pub struct ExIoError(std::io::Error);

/// The kinds of I/O error that the service itself creates.
#[derive(Clone, Copy, Debug, PartialEq, Eq, Structural)]
pub enum IoErrorKind {
    /// `std::io::ErrorKind::NotFound`
    NotFound,
    /// `std::io::ErrorKind::Other`
    Other,
}

/// The error that `std::io::Error::new` makes of a kind and a message.
pub uninterp spec fn io_error_new(kind: IoErrorKind, msg: Seq<char>) -> std::io::Error;

/// The error that `std::io::Error::from` makes of a kind alone.
pub uninterp spec fn io_error_from_kind(kind: IoErrorKind) -> std::io::Error;

/// Calls `std::io::Error::new(kind, msg)`. Trusted: its result is the named
/// value `io_error_new(kind, msg)`, a function of the kind and the message's
/// characters alone. The error's kind and message are left unstated: the
/// error is opaque here.
#[verifier::external_body]
fn new_io_error(kind: IoErrorKind, msg: String) -> (e: std::io::Error)
    ensures
        e == io_error_new(kind, msg@),
{
    let k = match kind {
        IoErrorKind::NotFound => std::io::ErrorKind::NotFound,
        IoErrorKind::Other => std::io::ErrorKind::Other,
    };
    std::io::Error::new(k, msg)
}

/// Calls `std::io::Error::from(kind)`. Trusted: its result is the named
/// value `io_error_from_kind(kind)`, a function of the kind alone. The
/// error's kind is left unstated: the error is opaque here.
#[verifier::external_body]
fn io_error_of_kind(kind: IoErrorKind) -> (e: std::io::Error)
    ensures
        e == io_error_from_kind(kind),
{
    let k = match kind {
        IoErrorKind::NotFound => std::io::ErrorKind::NotFound,
        IoErrorKind::Other => std::io::ErrorKind::Other,
    };
    std::io::Error::from(k)
}

/// Turns an error message into an I/O error of kind `Other`.
pub fn other(err: String) -> (e: std::io::Error)
    ensures
        e == io_error_new(IoErrorKind::Other, err@),
{
    new_io_error(IoErrorKind::Other, err)
}

/// An error of the service: one that came from outside (the transport, the
/// request's body), or one that the service itself reports.
#[derive(Debug)]
pub enum TeketekeError<E> {
    ExternalError(E),
    InternalError(String),
}

/// Wraps an outside error.
#[allow(non_snake_case)]
pub fn intoTeketekeError<E>(err: E) -> (r: TeketekeError<E>)
    ensures
        r == TeketekeError::ExternalError(err),
{
    TeketekeError::ExternalError(err)
}

/// Turns a service error into an I/O error: an outside I/O error is passed
/// on as it is; the service's own errors become `NotFound`.
pub fn teketeke_to_stdio_err(e: TeketekeError<std::io::Error>) -> (r: std::io::Error)
    ensures
        r == match e {
            TeketekeError::ExternalError(err) => err,
            TeketekeError::InternalError(_) => io_error_from_kind(IoErrorKind::NotFound),
        },
{
    match e {
        TeketekeError::ExternalError(err) => err,
        _ => io_error_of_kind(IoErrorKind::NotFound),
    }
}

/// The answer of a table operation: a value, or an HTTP status and a message.
#[derive(Debug)]
pub enum ApiResult<T> {
    Success(T),
    Failure(u16, String),
}

} // verus!
