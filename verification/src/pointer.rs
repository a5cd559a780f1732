use vstd::prelude::*;
use crate::error::CacheError;
use crate::tensor::{Device, TensorRole};

verus! {

/// A resolved device memory range: the address of a tensor's logical start
/// (storage base plus start offset), the byte length reachable from there,
/// and the device the memory lives on. All offset arithmetic is checked;
/// no caller ever computes a raw address itself.
#[derive(Clone, Copy, Debug, PartialEq, Eq, Structural)]
pub struct DevicePointer {
    pub addr: u64,
    pub len: u64,
    pub device: Device,
}

impl DevicePointer {
    /// The range does not wrap around the address space.
    pub open spec fn wf(self) -> bool {
        self.addr + self.len <= u64::MAX
    }

    /// Narrows the range by `off` bytes from its start.
    pub fn byte_offset(self, off: u64) -> (r: Option<DevicePointer>)
        requires
            self.wf(),
        ensures
            match r {
                Some(p) => off <= self.len && p.addr == self.addr + off && p.len == self.len
                    - off && p.device == self.device && p.wf(),
                None => off > self.len,
            },
    {
        if off <= self.len {
            Some(DevicePointer { addr: self.addr + off, len: self.len - off, device: self.device })
        } else {
            None
        }
    }

    /// The sub-range holding block `block_index`, each block taking
    /// `block_size_in_bytes` bytes.
    pub fn block_range(self, block_index: u64, block_size_in_bytes: u64) -> (r: Option<
        DevicePointer,
    >)
        requires
            self.wf(),
        ensures
            match r {
                Some(p) => block_index * block_size_in_bytes + block_size_in_bytes <= self.len
                    && p.addr == self.addr + block_index * block_size_in_bytes && p.len
                    == block_size_in_bytes && p.device == self.device && p.wf(),
                None => block_index * block_size_in_bytes + block_size_in_bytes > self.len,
            },
    {
        match block_index.checked_mul(block_size_in_bytes) {
            Some(start) => match start.checked_add(block_size_in_bytes) {
                Some(end) => if end <= self.len {
                    Some(
                        DevicePointer {
                            addr: self.addr + start,
                            len: block_size_in_bytes,
                            device: self.device,
                        },
                    )
                } else {
                    None
                },
                None => None,
            },
            None => None,
        }
    }
}

/// Resolves the raw device address of a tensor's logical start. Fails
/// exactly when the memory is not accelerator-resident.
pub fn resolve_device_pointer(
    role: TensorRole,
    base_addr: u64,
    start_offset_bytes: u64,
    len_bytes: u64,
    device: Device,
) -> (r: Result<DevicePointer, CacheError>)
    requires
        base_addr + start_offset_bytes + len_bytes <= u64::MAX,
    ensures
        match r {
            Ok(p) => device is Cuda && p.addr == base_addr + start_offset_bytes && p.len
                == len_bytes && p.device == device && p.wf(),
            Err(e) => !(device is Cuda) && e == (CacheError::NotCuda { role, got: device }),
        },
{
    if device.is_cuda() {
        Ok(DevicePointer { addr: base_addr + start_offset_bytes, len: len_bytes, device })
    } else {
        Err(CacheError::NotCuda { role, got: device })
    }
}

} // verus!
