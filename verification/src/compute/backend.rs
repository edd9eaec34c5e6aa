//! Choice of the compute backend.

use vstd::prelude::*;
use vstd::string::*;

use crate::text::{append_size, decimal};

verus! {

/// The backends there are.
#[derive(Debug, Clone, Copy, PartialEq, Eq, Structural)]
pub enum BackendKind {
    Cpu,
    Metal,
    Cuda,
}

/// The best backend of those that are there: Metal before CUDA before the
/// CPU.
pub fn default_backend(metal_available: bool, cuda_available: bool) -> (b: BackendKind)
    ensures
        metal_available ==> b == BackendKind::Metal,
        !metal_available && cuda_available ==> b == BackendKind::Cuda,
        !metal_available && !cuda_available ==> b == BackendKind::Cpu,
{
    if metal_available {
        BackendKind::Metal
    } else if cuda_available {
        BackendKind::Cuda
    } else {
        cpu_backend()
    }
}

/// The CPU, whatever else is there.
pub fn cpu_backend() -> (b: BackendKind)
    ensures
        b == BackendKind::Cpu,
{
    BackendKind::Cpu
}

/// What a CUDA device is called.
pub fn cuda_device_name(ordinal: usize) -> (name: String)
    ensures
        name@ == "CUDA device "@ + decimal(ordinal as nat),
{
    let mut name: String = String::from_str("CUDA device ");
    append_size(&mut name, ordinal);
    name
}

} // verus!
