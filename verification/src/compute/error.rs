//! Errors of the GPU backend.

use vstd::prelude::*;
use vstd::string::*;

verus! {

/// What can go wrong on the device.
#[derive(Debug)]
pub enum CudaError {
    /// The device could not be initialised.
    DeviceInit(String),
    /// cuBLAS could not be initialised.
    BlasInit(String),
    /// A stream could not be made.
    StreamCreate(String),
    /// A kernel could not be launched.
    KernelLaunch(String),
    /// Memory could not be allocated.
    MemAlloc(String),
    /// A copy between host and device failed.
    Transfer(String),
}

impl CudaError {
    /// The text of the error.
    pub open spec fn text(self) -> Seq<char> {
        match self {
            CudaError::DeviceInit(e) => "CUDA device init: "@ + e@,
            CudaError::BlasInit(e) => "cuBLAS init: "@ + e@,
            CudaError::StreamCreate(e) => "CUDA stream: "@ + e@,
            CudaError::KernelLaunch(e) => "kernel launch: "@ + e@,
            CudaError::MemAlloc(e) => "GPU alloc: "@ + e@,
            CudaError::Transfer(e) => "H2D/D2H transfer: "@ + e@,
        }
    }

    /// The error as text.
    pub fn message(&self) -> (s: String)
        ensures
            s@ == self.text(),
    {
        match self {
            CudaError::DeviceInit(e) => {
                let mut s: String = String::from_str("CUDA device init: ");
                s.append(e.as_str());
                s
            },
            CudaError::BlasInit(e) => {
                let mut s: String = String::from_str("cuBLAS init: ");
                s.append(e.as_str());
                s
            },
            CudaError::StreamCreate(e) => {
                let mut s: String = String::from_str("CUDA stream: ");
                s.append(e.as_str());
                s
            },
            CudaError::KernelLaunch(e) => {
                let mut s: String = String::from_str("kernel launch: ");
                s.append(e.as_str());
                s
            },
            CudaError::MemAlloc(e) => {
                let mut s: String = String::from_str("GPU alloc: ");
                s.append(e.as_str());
                s
            },
            CudaError::Transfer(e) => {
                let mut s: String = String::from_str("H2D/D2H transfer: ");
                s.append(e.as_str());
                s
            },
        }
    }
}

} // verus!
