use vstd::prelude::*;

verus! {

/// The closed set of failure kinds shared by the codec and its collaborators.
///
/// The codec itself only ever produces `DataParseError` (malformed or short
/// input, invalid text), `InvalidPacketError` (a discriminant byte that maps
/// to no packet kind), `IOError` (a write-side invariant violation such as an
/// oversized collection) and `NullError` (a packet kind that is declared but
/// has no codec). The remaining kinds belong to transport collaborators and
/// are kept so that all layers share one error vocabulary.
#[derive(Debug, Clone, PartialEq)]
pub enum Error {
    NullError { reason: String },
    DataParseError { reason: String },
    NetworkError { reason: String },
    InvalidPacketError { reason: String },
    IOError { reason: String },
    PipeError { reason: String },
    TimeoutError { reason: String },
}

/// Builds the parse-time failure used for malformed or truncated input.
pub(crate) fn data_parse_error(reason: &str) -> (e: Error)
    ensures
        e is DataParseError,
{
    Error::DataParseError { reason: reason.to_string() }
}

/// Builds the write-time failure used when an encoder invariant is violated.
pub(crate) fn io_error(reason: &str) -> (e: Error)
    ensures
        e is IOError,
{
    Error::IOError { reason: reason.to_string() }
}

/// Builds the failure used for a discriminant byte that maps to no kind.
pub(crate) fn invalid_packet_error(reason: &str) -> (e: Error)
    ensures
        e is InvalidPacketError,
{
    Error::InvalidPacketError { reason: reason.to_string() }
}

/// Builds the failure used for a packet kind that has no codec.
pub(crate) fn null_error(reason: &str) -> (e: Error)
    ensures
        e is NullError,
{
    Error::NullError { reason: reason.to_string() }
}

} // verus!
