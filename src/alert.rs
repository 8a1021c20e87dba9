//! The error kinds of a TLS session and the fatal alert each one sends.
use vstd::prelude::*;

verus! {

/// Why a TLS session failed. Every error is fatal.
#[derive(Debug, Clone, Copy, PartialEq, Eq, Structural)]
pub enum TlsErrorKind {
    /// The transport failed or closed.
    IoFailure,
    /// A message that the current state does not expect.
    UnexpectedMessage,
    /// A record whose authentication tag does not verify.
    BadRecordMac,
    /// The peer's Finished does not match.
    DecryptError,
    /// A version, cipher suite or extension that is not the one offered.
    IllegalParameter,
    /// A message or certificate that does not parse.
    DecodeError,
    /// A failure of the random source, or a broken invariant.
    InternalError,
    /// The peer sent an alert.
    AlertReceived,
}

/// Alert description codes (RFC 5246, section 7.2).
pub const CLOSE_NOTIFY: u8 = 0;
pub const UNEXPECTED_MESSAGE: u8 = 10;
pub const BAD_RECORD_MAC: u8 = 20;
pub const ILLEGAL_PARAMETER: u8 = 47;
pub const DECODE_ERROR: u8 = 50;
pub const DECRYPT_ERROR: u8 = 51;
pub const INTERNAL_ERROR: u8 = 80;

/// Alert level of a fatal alert.
pub const FATAL: u8 = 2;

/// The description of the fatal alert that an error sends, if any.
pub open spec fn spec_alert_for(kind: TlsErrorKind) -> Option<u8> {
    match kind {
        TlsErrorKind::IoFailure => None,
        TlsErrorKind::UnexpectedMessage => Some(UNEXPECTED_MESSAGE),
        TlsErrorKind::BadRecordMac => Some(BAD_RECORD_MAC),
        TlsErrorKind::DecryptError => Some(DECRYPT_ERROR),
        TlsErrorKind::IllegalParameter => Some(ILLEGAL_PARAMETER),
        TlsErrorKind::DecodeError => Some(DECODE_ERROR),
        TlsErrorKind::InternalError => Some(INTERNAL_ERROR),
        TlsErrorKind::AlertReceived => None,
    }
}

/// The alert an error sends: none where the transport is gone or the peer
/// has already closed with an alert.
pub fn alert_for(kind: TlsErrorKind) -> (r: Option<u8>)
    ensures
        r == spec_alert_for(kind),
{
    match kind {
        TlsErrorKind::IoFailure => None,
        TlsErrorKind::UnexpectedMessage => Some(UNEXPECTED_MESSAGE),
        TlsErrorKind::BadRecordMac => Some(BAD_RECORD_MAC),
        TlsErrorKind::DecryptError => Some(DECRYPT_ERROR),
        TlsErrorKind::IllegalParameter => Some(ILLEGAL_PARAMETER),
        TlsErrorKind::DecodeError => Some(DECODE_ERROR),
        TlsErrorKind::InternalError => Some(INTERNAL_ERROR),
        TlsErrorKind::AlertReceived => None,
    }
}

/// The two bytes of the fatal alert that an error sends.
pub fn alert_message(kind: TlsErrorKind) -> (r: Option<Vec<u8>>)
    ensures
        match spec_alert_for(kind) {
            Some(d) => r matches Some(v) && v@ == seq![FATAL, d],
            None => r is None,
        },
{
    match alert_for(kind) {
        Some(d) => {
            let v = vec![FATAL, d];
            assert(v@ =~= seq![FATAL, d]);
            Some(v)
        },
        None => None,
    }
}

} // verus!
