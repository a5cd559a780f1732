use vstd::prelude::*;
use crate::tensor::Dtype;

verus! {

/// Maximum threads per work-group for the scatter and rotation kernels.
pub const MAX_BLOCK_THREADS: u32 = 512;

/// Maximum threads per work-group for the batched block-copy kernel.
pub const MAX_COPY_BLOCK_THREADS: u32 = 1024;

/// Grid and block dimensions of one kernel dispatch.
#[derive(Clone, Copy, Debug, PartialEq, Eq, Structural)]
pub struct LaunchConfig {
    pub grid_x: u32,
    pub grid_y: u32,
    pub grid_z: u32,
    pub block_x: u32,
    pub block_y: u32,
    pub block_z: u32,
    pub shared_mem_bytes: u32,
}

/// The kernel families this engine dispatches.
#[derive(Clone, Copy, Debug, PartialEq, Eq, Structural)]
pub enum KernelFamily {
    ReshapeAndCache,
    CopyBlocks,
    RotaryEmbedding,
}

/// Entry-point variant suffix of a kernel family.
#[derive(Clone, Copy, Debug, PartialEq, Eq, Structural)]
pub enum KernelVariant {
    Plain,
    Neox,
    Normal,
}

/// What identifies one compiled kernel: family and variant suffix, element
/// dtype, and the device it was compiled for.
#[derive(Clone, Copy, Debug, PartialEq, Eq, Structural)]
pub struct KernelKey {
    pub family: KernelFamily,
    pub variant: KernelVariant,
    pub dtype: Dtype,
    pub device_ordinal: u32,
}

/// Launch description of one scatter dispatch: one work-group per token.
#[derive(Clone, Copy, Debug, PartialEq, Eq, Structural)]
pub struct ReshapeAndCachePlan {
    pub launch: LaunchConfig,
    pub kernel: KernelKey,
    pub key_stride: usize,
    pub value_stride: usize,
    pub num_heads: usize,
    pub head_size: usize,
    pub block_size: usize,
    pub x: usize,
}

/// Launch description of one batched block-copy dispatch: one grid
/// dimension per layer and one per mapping pair, so a single launch covers
/// every relocation of every layer. `flat_mapping` interleaves the pairs as
/// the kernel receives them: source, destination, source, destination, ...
#[derive(Clone, Debug, PartialEq)]
pub struct CopyBlocksPlan {
    pub launch: LaunchConfig,
    pub kernel: KernelKey,
    pub num_layers: u32,
    pub num_pairs: u32,
    pub numel_per_block: u32,
    pub flat_mapping: Vec<i64>,
}

/// Which copy path a block swap takes.
#[derive(Clone, Copy, Debug, PartialEq, Eq, Structural)]
pub enum SwapKind {
    /// Asynchronous device-to-device byte copies on one accelerator.
    DeviceToDevice,
    /// Synchronous host-to-device byte copies.
    HostToDevice,
}

/// Byte-copy description of one block swap: for each mapping pair, the
/// byte offsets of the source and destination blocks inside their tensors.
#[derive(Clone, Debug, PartialEq)]
pub struct SwapPlan {
    pub kind: SwapKind,
    pub block_size_in_bytes: usize,
    pub copies: Vec<(usize, usize)>,
}

/// Launch description of one rotary-embedding dispatch: one work-group per
/// token, rotating the first `rot_dim` elements of each head in place.
#[derive(Clone, Copy, Debug, PartialEq, Eq, Structural)]
pub struct RotaryPlan {
    pub launch: LaunchConfig,
    pub kernel: KernelKey,
    pub rot_dim: usize,
    pub query_stride: usize,
    pub key_stride: usize,
    pub num_heads: usize,
    pub num_kv_heads: usize,
    pub head_size: usize,
}

} // verus!
