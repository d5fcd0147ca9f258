use vstd::prelude::*;

verus! {

/// Everything that can end a protocol operation.
#[derive(PartialEq, Eq, Structural, Debug, Clone, Copy)]
pub enum RconError {
    /// Fewer than twelve bytes were given to a header or packet decoder, or the
    /// declared length does not fit the bytes at hand.
    MalformedHeader,
    /// A read returned fewer than the twelve header bytes.
    TruncatedHeader,
    /// A read returned no bytes before the response was complete.
    ConnectionClosed,
    /// The server answered the login with the sentinel id.
    AuthenticationFailed,
    /// The response id differs from the id of the request just sent.
    CorrelationMismatch { expected: i32, got: i32 },
    /// The operation is not allowed in the session's current state.
    InvalidState,
    /// The payload is too long for the packet's length field.
    PayloadTooLarge,
    /// The request-id counter has reached its largest value.
    IdsExhausted,
}

} // verus!
