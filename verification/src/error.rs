use vstd::prelude::*;
use crate::tensor::{Device, Dtype, TensorRole};

verus! {

/// Typed errors of the cache engine.
///
/// Contract violations (dtype or device mismatches) identify the offending
/// tensor and its actual against its expected property; unsupported device
/// combinations are distinct from contract violations, since the inputs may
/// be individually valid; pending capabilities are named as such.
#[derive(Clone, Copy, Debug, PartialEq, Eq, Structural)]
pub enum CacheError {
    /// `slot_mapping` must be a 64-bit signed integer tensor.
    SlotMappingDtype { got: Dtype },
    /// The named tensor's dtype differs from the dtype it must match.
    DtypeMismatch { role: TensorRole, expected: Dtype, got: Dtype },
    /// The named tensor must be resident on an accelerator device.
    NotCuda { role: TensorRole, got: Device },
    /// The named tensor must share a device with the operation's reference tensor.
    DeviceMismatch { role: TensorRole, expected: Device, got: Device },
    /// Block swap between two distinct accelerator ordinals is not supported.
    CudaOrdinalMismatch { src: u32, dst: u32 },
    /// Device-to-host block swap is a pending capability.
    SwapToHostUnimplemented,
    /// No block swap path exists between this pair of devices.
    UnsupportedSwapDevices { src: Device, dst: Device },
    /// No kernel variant exists for this element dtype.
    UnsupportedDtype { got: Dtype },
}

} // verus!
