use vstd::prelude::*;

verus! {

/// Element dtype of a tensor. The engine never interprets element values;
/// it carries them as raw bit patterns, and the dtype tag records how a
/// device kernel would interpret them and how many bytes one element takes.
#[derive(Clone, Copy, Debug, PartialEq, Eq, Structural)]
pub enum Dtype {
    Uint8,
    Uint32,
    Int64,
    Float16,
    BFloat16,
    Float32,
    Float64,
}

impl Dtype {
    /// Size of one element in bytes.
    pub open spec fn size(self) -> nat {
        match self {
            Dtype::Uint8 => 1,
            Dtype::Uint32 => 4,
            Dtype::Int64 => 8,
            Dtype::Float16 => 2,
            Dtype::BFloat16 => 2,
            Dtype::Float32 => 4,
            Dtype::Float64 => 8,
        }
    }

    pub fn size_in_bytes(self) -> (n: usize)
        ensures
            n == self.size(),
    {
        match self {
            Dtype::Uint8 => 1,
            Dtype::Uint32 => 4,
            Dtype::Int64 => 8,
            Dtype::Float16 => 2,
            Dtype::BFloat16 => 2,
            Dtype::Float32 => 4,
            Dtype::Float64 => 8,
        }
    }
}

/// Device placement: the host, or an accelerator identified by its ordinal.
#[derive(Clone, Copy, Debug, PartialEq, Eq, Structural)]
pub enum Device {
    Cpu,
    Cuda(u32),
}

impl Device {
    pub fn is_cuda(self) -> (r: bool)
        ensures
            r == (self is Cuda),
    {
        match self {
            Device::Cuda(_) => true,
            Device::Cpu => false,
        }
    }

    pub fn same_device(self, other: Device) -> (r: bool)
        ensures
            r == (self == other),
    {
        self == other
    }

    /// Accelerator ordinal of a device placement; the host reads as 0.
    pub open spec fn ordinal(self) -> u32 {
        match self {
            Device::Cuda(o) => o,
            Device::Cpu => 0,
        }
    }

    pub fn ordinal_value(self) -> (r: u32)
        ensures
            r == self.ordinal(),
    {
        match self {
            Device::Cuda(o) => o,
            Device::Cpu => 0,
        }
    }
}

/// Which tensor of an operation an error is about.
#[derive(Clone, Copy, Debug, PartialEq, Eq, Structural)]
pub enum TensorRole {
    Key,
    Value,
    KeyCache,
    ValueCache,
    SlotMapping,
    KeyCaches,
    ValueCaches,
    Positions,
    Query,
    CosSinCache,
    Source,
    Destination,
}

/// Product of a list of dimension sizes: the element count of a tensor
/// with those dimensions.
pub open spec fn prod(dims: Seq<usize>) -> int
    decreases dims.len(),
{
    if dims.len() == 0 {
        1
    } else {
        dims[0] * prod(dims.skip(1))
    }
}

/// A tensor as the engine sees it: dimension sizes, element dtype, device
/// placement, and the element contents as raw bit patterns in row-major
/// order. The caller owns the value; the engine borrows it per call.
#[derive(Clone, Debug, PartialEq)]
pub struct Tensor {
    pub dims: Vec<usize>,
    pub dtype: Dtype,
    pub device: Device,
    pub data: Vec<u64>,
}

impl Tensor {
    /// The contents hold exactly one element per position of the shape.
    pub open spec fn wf(self) -> bool {
        self.data.len() == prod(self.dims@)
    }

    pub open spec fn numel(self) -> int {
        prod(self.dims@)
    }

    pub open spec fn dim(self, i: int) -> int {
        self.dims@[i] as int
    }

    pub open spec fn rank(self) -> int {
        self.dims@.len() as int
    }

    /// Same shape, dtype and device; says nothing of the contents.
    pub open spec fn same_meta(self, other: Tensor) -> bool {
        self.dims@ == other.dims@ && self.dtype == other.dtype && self.device == other.device
    }
}

} // verus!
