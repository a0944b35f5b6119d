//! Transport-level outcomes. Every RPC and network send returns one of these
//! four outcomes; they are routinely recovered from locally and never become
//! API errors directly.

use vstd::prelude::*;

verus! {

/// The error kinds of an I/O failure that the network core distinguishes.
/// Mirrors the subset of the platform's I/O error kinds that the connection
/// layer maps onto transport outcomes; everything else is `Other`.
#[derive(Clone, Copy, Debug, PartialEq, Eq, Structural)]
pub enum IoErrorKind {
    TimedOut,
    ConnectionAborted,
    ConnectionRefused,
    ConnectionReset,
    InvalidData,
    Other,
}

/// A plain-value model of an I/O error: a kind plus a human-readable message.
/// The I/O layer converts the platform's error type into this before handing
/// it to the network core.
#[derive(Clone, Debug)]
pub struct IoError {
    pub kind: IoErrorKind,
    pub message: String,
}

impl IoError {
    pub fn new(kind: IoErrorKind, message: String) -> (r: IoError)
        ensures
            r.kind == kind,
            r.message == message,
    {
        IoError { kind, message }
    }

    /// Whether this error kind means the connection is gone rather than the
    /// operation merely having failed.
    pub fn is_connection_error(&self) -> (r: bool)
        ensures
            r == spec_is_connection_error(self.kind),
    {
        match self.kind {
            IoErrorKind::ConnectionAborted => true,
            IoErrorKind::ConnectionRefused => true,
            IoErrorKind::ConnectionReset => true,
            _ => false,
        }
    }
}

pub open spec fn spec_is_connection_error(kind: IoErrorKind) -> bool {
    kind == IoErrorKind::ConnectionAborted || kind == IoErrorKind::ConnectionRefused
        || kind == IoErrorKind::ConnectionReset
}

/// Either a timeout or a value; what a timed wait hands back.
pub enum TimeoutOr<T> {
    Timeout,
    Value(T),
}

/// The error of a wait that timed out.
#[derive(Clone, Copy, Debug, PartialEq, Eq, Structural)]
pub struct TimeoutError {}

/// A non-fatal network-level outcome. `Timeout` and `NoConnection` update the
/// peer's bucket statistics; `InvalidMessage` drops the message.
#[must_use]
pub enum NetworkResult<T> {
    Timeout,
    NoConnection(IoError),
    InvalidMessage(String),
    Value(T),
}

impl<T> NetworkResult<T> {
    pub fn timeout() -> (r: Self)
        ensures
            r is Timeout,
    {
        Self::Timeout
    }

    pub fn no_connection(e: IoError) -> (r: Self)
        ensures
            r matches NetworkResult::NoConnection(e2) && e2 == e,
    {
        Self::NoConnection(e)
    }

    /// A `NoConnection` outcome that carries only a description, with the
    /// `Other` error kind.
    pub fn no_connection_other(s: String) -> (r: Self)
        ensures
            r matches NetworkResult::NoConnection(e) && e.kind == IoErrorKind::Other
                && e.message == s,
    {
        Self::NoConnection(IoError { kind: IoErrorKind::Other, message: s })
    }

    pub fn invalid_message(s: String) -> (r: Self)
        ensures
            r matches NetworkResult::InvalidMessage(s2) && s2 == s,
    {
        Self::InvalidMessage(s)
    }

    pub fn value(value: T) -> (r: Self)
        ensures
            r matches NetworkResult::Value(v) && v == value,
    {
        Self::Value(value)
    }

    pub fn is_timeout(&self) -> (r: bool)
        ensures
            r == (self is Timeout),
    {
        matches!(self, Self::Timeout)
    }

    pub fn is_no_connection(&self) -> (r: bool)
        ensures
            r == (self is NoConnection),
    {
        matches!(self, Self::NoConnection(_))
    }

    pub fn is_value(&self) -> (r: bool)
        ensures
            r == (self is Value),
    {
        matches!(self, Self::Value(_))
    }

    /// Apply `f` to the value, keeping any non-value outcome exactly as it is.
    pub fn map<X, F: Fn(T) -> X>(self, f: F) -> (r: NetworkResult<X>)
        requires
            forall|v: T| self == NetworkResult::Value(v) ==> f.requires((v,)),
        ensures
            self is Timeout ==> r is Timeout,
            self matches NetworkResult::NoConnection(e) ==> (r matches NetworkResult::NoConnection(
                e2,
            ) && e2 == e),
            self matches NetworkResult::InvalidMessage(s) ==> (r
                matches NetworkResult::InvalidMessage(s2) && s2 == s),
            self matches NetworkResult::Value(v) ==> (r matches NetworkResult::Value(x)
                && f.ensures((v,), x)),
    {
        match self {
            Self::Timeout => NetworkResult::<X>::Timeout,
            Self::NoConnection(e) => NetworkResult::<X>::NoConnection(e),
            Self::InvalidMessage(s) => NetworkResult::<X>::InvalidMessage(s),
            Self::Value(v) => NetworkResult::<X>::Value(f(v)),
        }
    }

    /// Fold the outcome into a plain `Result`, turning `Timeout` and
    /// `InvalidMessage` into I/O errors of the matching kind.
    pub fn into_result(self) -> (r: Result<T, IoError>)
        ensures
            self is Timeout ==> (r matches Err(e) && e.kind == IoErrorKind::TimedOut),
            self matches NetworkResult::NoConnection(e) ==> r == Result::<T, IoError>::Err(e),
            self matches NetworkResult::InvalidMessage(s) ==> (r matches Err(e) && e.kind
                == IoErrorKind::InvalidData && e.message == s),
            self matches NetworkResult::Value(v) ==> r == Result::<T, IoError>::Ok(v),
    {
        match self {
            Self::Timeout => Err(
                IoError { kind: IoErrorKind::TimedOut, message: String::new() },
            ),
            Self::NoConnection(e) => Err(e),
            Self::InvalidMessage(s) => Err(IoError { kind: IoErrorKind::InvalidData, message: s }),
            Self::Value(v) => Ok(v),
        }
    }

    /// The value, if this outcome carries one.
    pub fn into_option(self) -> (r: Option<T>)
        ensures
            self matches NetworkResult::Value(v) ==> r == Some(v),
            !(self is Value) ==> r is None,
    {
        match self {
            Self::Value(v) => Some(v),
            _ => None,
        }
    }
}

/// Fold a timeout-or-value result into a network result.
pub trait NetworkResultExt<T> {
    fn into_network_result(self) -> NetworkResult<T>;
}

impl<T> NetworkResultExt<T> for Result<T, TimeoutError> {
    fn into_network_result(self) -> (r: NetworkResult<T>)
        ensures
            self matches Ok(v) ==> (r matches NetworkResult::Value(v2) && v2 == v),
            self is Err ==> r is Timeout,
    {
        match self {
            Ok(v) => NetworkResult::<T>::Value(v),
            Err(_) => NetworkResult::<T>::Timeout,
        }
    }
}

/// Fold an I/O result into a network result, keeping unrecognized error
/// kinds as errors.
pub trait IoNetworkResultExt<T> {
    fn into_network_result(self) -> Result<NetworkResult<T>, IoError>;
}

/// Which outcome an I/O error kind folds into: timeouts and connection
/// failures become network results; anything else stays an error.
pub open spec fn spec_folded_io_error<T>(e: IoError) -> Result<NetworkResult<T>, IoError> {
    if e.kind == IoErrorKind::TimedOut {
        Ok(NetworkResult::Timeout)
    } else if spec_is_connection_error(e.kind) {
        Ok(NetworkResult::NoConnection(e))
    } else {
        Err(e)
    }
}

impl<T> IoNetworkResultExt<T> for Result<T, IoError> {
    fn into_network_result(self) -> (r: Result<NetworkResult<T>, IoError>)
        ensures
            self matches Ok(v) ==> (r matches Ok(nr) && nr matches NetworkResult::Value(v2) && v2
                == v),
            self matches Err(e) ==> r == spec_folded_io_error::<T>(e),
    {
        match self {
            Ok(v) => Ok(NetworkResult::Value(v)),
            Err(e) => match e.kind {
                IoErrorKind::TimedOut => Ok(NetworkResult::Timeout),
                IoErrorKind::ConnectionAborted => Ok(NetworkResult::NoConnection(e)),
                IoErrorKind::ConnectionRefused => Ok(NetworkResult::NoConnection(e)),
                IoErrorKind::ConnectionReset => Ok(NetworkResult::NoConnection(e)),
                _ => Err(e),
            },
        }
    }
}

/// Pull an inner `Result` out of a network result, so that the caller's
/// error type propagates while transport outcomes pass through.
pub trait NetworkResultResultExt<T, E> {
    fn into_result_network_result(self) -> Result<NetworkResult<T>, E>;
}

impl<T, E> NetworkResultResultExt<T, E> for NetworkResult<Result<T, E>> {
    fn into_result_network_result(self) -> (r: Result<NetworkResult<T>, E>)
        ensures
            self is Timeout ==> (r matches Ok(nr) && nr is Timeout),
            self matches NetworkResult::NoConnection(e) ==> (r matches Ok(nr) && nr
                matches NetworkResult::NoConnection(e2) && e2 == e),
            self matches NetworkResult::InvalidMessage(s) ==> (r matches Ok(nr) && nr
                matches NetworkResult::InvalidMessage(s2) && s2 == s),
            self matches NetworkResult::Value(Ok(t)) ==> (r matches Ok(nr) && nr
                matches NetworkResult::Value(t2) && t2 == t),
            self matches NetworkResult::Value(Err(e)) ==> r == Result::<
                NetworkResult<T>,
                E,
            >::Err(e),
    {
        match self {
            NetworkResult::Timeout => Ok(NetworkResult::<T>::Timeout),
            NetworkResult::NoConnection(e) => Ok(NetworkResult::<T>::NoConnection(e)),
            NetworkResult::InvalidMessage(s) => Ok(NetworkResult::<T>::InvalidMessage(s)),
            NetworkResult::Value(Ok(v)) => Ok(NetworkResult::<T>::Value(v)),
            NetworkResult::Value(Err(e)) => Err(e),
        }
    }
}

/// Fold nested timeout/network results with I/O errors into one layer.
pub trait FoldedNetworkResultExt<T> {
    fn folded(self) -> Result<NetworkResult<T>, IoError>;
}

impl<T> FoldedNetworkResultExt<T> for Result<TimeoutOr<T>, IoError> {
    fn folded(self) -> (r: Result<NetworkResult<T>, IoError>)
        ensures
            self matches Ok(TimeoutOr::Timeout) ==> (r matches Ok(nr) && nr is Timeout),
            self matches Ok(TimeoutOr::Value(v)) ==> (r matches Ok(nr) && nr
                matches NetworkResult::Value(v2) && v2 == v),
            self matches Err(e) ==> r == spec_folded_io_error::<T>(e),
    {
        match self {
            Ok(TimeoutOr::Timeout) => Ok(NetworkResult::Timeout),
            Ok(TimeoutOr::Value(v)) => Ok(NetworkResult::Value(v)),
            Err(e) => match e.kind {
                IoErrorKind::TimedOut => Ok(NetworkResult::Timeout),
                IoErrorKind::ConnectionAborted => Ok(NetworkResult::NoConnection(e)),
                IoErrorKind::ConnectionRefused => Ok(NetworkResult::NoConnection(e)),
                IoErrorKind::ConnectionReset => Ok(NetworkResult::NoConnection(e)),
                _ => Err(e),
            },
        }
    }
}

impl<T> FoldedNetworkResultExt<T> for Result<NetworkResult<T>, IoError> {
    fn folded(self) -> (r: Result<NetworkResult<T>, IoError>)
        ensures
            self matches Ok(nr) ==> r == Result::<NetworkResult<T>, IoError>::Ok(nr),
            self matches Err(e) ==> r == spec_folded_io_error::<T>(e),
    {
        match self {
            Ok(v) => Ok(v),
            Err(e) => match e.kind {
                IoErrorKind::TimedOut => Ok(NetworkResult::Timeout),
                IoErrorKind::ConnectionAborted => Ok(NetworkResult::NoConnection(e)),
                IoErrorKind::ConnectionRefused => Ok(NetworkResult::NoConnection(e)),
                IoErrorKind::ConnectionReset => Ok(NetworkResult::NoConnection(e)),
                _ => Err(e),
            },
        }
    }
}

} // verus!
