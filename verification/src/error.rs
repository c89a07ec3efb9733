//! Error kinds surfaced by the TDP backends, the GPU controllers and the
//! CPU controller.

use vstd::prelude::*;

verus! {

/// Failure kinds of the TDP backends.
///
/// `FeatureUnsupported` marks a capability absent on this host or backend;
/// `InvalidArgument` marks a client value out of range, which must never be
/// swallowed; `IOError` marks a failed pseudo-file or library access; and
/// `FailedOperation` marks a backend fault that another backend may recover
/// from.
#[derive(Debug, Clone)]
pub enum TDPError {
    FeatureUnsupported,
    FailedOperation(String),
    InvalidArgument(String),
    IOError(String),
}

pub type TDPResult<T> = Result<T, TDPError>;

/// Failure kinds of the GPU clock controllers.
#[derive(Debug, Clone)]
pub enum GPUError {
    FailedOperation(String),
    InvalidArgument(String),
    IOError(String),
}

pub type GPUResult<T> = Result<T, GPUError>;

/// Failure kinds of the CPU controller, mirroring the bus error kinds the
/// daemon reports: a rejected client value, a failed pseudo-file access,
/// and any other failed operation.
#[derive(Debug, Clone)]
pub enum CpuError {
    InvalidArgs(String),
    IOError(String),
    Failed(String),
}

pub type CpuResult<T> = Result<T, CpuError>;

} // verus!
