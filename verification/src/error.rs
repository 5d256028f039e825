use vstd::prelude::*;

verus! {

/// The failure kinds that every error of the protocol core maps to.
#[derive(Clone, Copy, Debug, PartialEq, Eq, Structural)]
pub enum RdpErrorKind {
    /// A check field did not hold its expected constant.
    InvalidConst,
    /// A declared length disagrees with the bytes that are available.
    InvalidSize,
    /// A structural access asked for the wrong field type.
    InvalidCast,
    /// A payload is semantically wrong, such as a malformed hex string.
    InvalidData,
    /// The server answered something this client will not accept.
    InvalidRespond,
    /// A recognized but unsupported protocol path.
    NotImplemented,
    /// A bitmap decompressor invariant was violated.
    RleDecode,
    /// Orderly server-initiated termination.
    Disconnect,
    /// A wrapped platform error.
    Unknown,
}

/// An error of the protocol core, carrying its kind.
#[derive(Clone, Copy, Debug, PartialEq, Eq, Structural)]
pub struct RdpError {
    pub kind: RdpErrorKind,
}

impl RdpError {
    /// Builds an error of the given kind.
    pub fn new(kind: RdpErrorKind) -> (r: RdpError)
        ensures
            r.kind == kind,
    {
        RdpError { kind }
    }

    /// The kind of this error.
    pub fn kind(&self) -> (r: RdpErrorKind)
        ensures
            r == self.kind,
    {
        self.kind
    }
}

/// The result type used throughout the protocol core.
pub type RdpResult<T> = Result<T, RdpError>;

} // verus!
