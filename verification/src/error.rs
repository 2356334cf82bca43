use vstd::prelude::*;

verus! {

/// Errors reported by the CSCP transport.
#[derive(Debug, PartialEq, Eq)]
pub enum CscpError {
    /// The shared memory object could not be opened or created.
    ShmOpenFailed(String),
    /// The shared memory object could not be mapped.
    ShmMapFailed(String),
    /// The producer's flow control refused the frame.
    RateLimited,
    /// The destination queue holds its full capacity of frames.
    QueueFull,
    /// The attached region does not carry the expected signature and ABI version.
    AbiVersionMismatch { expected: u32, actual: u32 },
}

} // verus!
