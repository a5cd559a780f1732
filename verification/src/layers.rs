use vstd::prelude::*;
use vstd::arithmetic::div_mod::{lemma_div_is_ordered, lemma_fundamental_div_mod};
use crate::error::CacheError;
use crate::plan::{KernelFamily, KernelKey, KernelVariant, LaunchConfig, RotaryPlan, MAX_BLOCK_THREADS};
use crate::tensor::{Device, Tensor, TensorRole};

verus! {

// ---------------------------------------------------------------------------
// Rotary positional embedding: validation, launch planning, and the two
// pairing conventions.
//
// The rotation itself is floating-point arithmetic performed by the device
// kernel; what the host side decides — which tensors are admissible, how
// many heads there are, which elements are paired and rotated, and how the
// kernel is launched — is verified here.
// ---------------------------------------------------------------------------

/// The first violated precondition of `rotary_embedding`, if any: the
/// positions must be accelerator-resident, and query, key and the
/// cos/sin table must share their device.
pub open spec fn rotary_guard(
    positions: Tensor,
    query: Tensor,
    key: Tensor,
    cos_sin_cache: Tensor,
) -> Option<CacheError> {
    if !(positions.device is Cuda) {
        Some(CacheError::NotCuda { role: TensorRole::Positions, got: positions.device })
    } else if query.device != positions.device {
        Some(
            CacheError::DeviceMismatch {
                role: TensorRole::Query,
                expected: positions.device,
                got: query.device,
            },
        )
    } else if key.device != positions.device {
        Some(
            CacheError::DeviceMismatch {
                role: TensorRole::Key,
                expected: positions.device,
                got: key.device,
            },
        )
    } else if cos_sin_cache.device != positions.device {
        Some(
            CacheError::DeviceMismatch {
                role: TensorRole::CosSinCache,
                expected: positions.device,
                got: cos_sin_cache.device,
            },
        )
    } else {
        None
    }
}

/// Shape coherence of one rotation call: query and key end in a multiple
/// of `head_size`; the cos/sin table is two-dimensional with an even
/// rotation dimensionality of at least two that fits within one head; the
/// derived launch quantities fit the launch configuration.
pub open spec fn rotary_shapes_ok(
    query: Tensor,
    key: Tensor,
    cos_sin_cache: Tensor,
    head_size: int,
) -> bool {
    let q_last = query.dim(query.rank() - 1);
    let k_last = key.dim(key.rank() - 1);
    let rot = cos_sin_cache.dim(1);
    &&& query.wf()
    &&& key.wf()
    &&& cos_sin_cache.wf()
    &&& query.rank() >= 2
    &&& key.rank() >= 2
    &&& cos_sin_cache.rank() == 2
    &&& (forall|i: int| 0 <= i < query.rank() ==> query.dim(i) >= 1)
    &&& (forall|i: int| 0 <= i < key.rank() ==> key.dim(i) >= 1)
    &&& head_size >= 1
    &&& q_last % head_size == 0
    &&& k_last % head_size == 0
    &&& q_last >= head_size
    &&& k_last >= head_size
    &&& rot >= 2
    &&& rot % 2 == 0
    &&& rot <= head_size
    &&& query.numel() / q_last <= u32::MAX
    &&& (q_last / head_size) * (rot / 2) <= u32::MAX
}

/// The launch description of one rotation dispatch: one work-group per
/// token, thread count derived from the number of rotated pairs per token,
/// the kernel variant chosen by the pairing convention.
pub open spec fn rotary_plan_ok(
    p: RotaryPlan,
    positions: Tensor,
    query: Tensor,
    key: Tensor,
    cos_sin_cache: Tensor,
    head_size: int,
    is_neox: bool,
) -> bool {
    let q_last = query.dim(query.rank() - 1);
    let k_last = key.dim(key.rank() - 1);
    let nt = query.numel() / q_last;
    let rot = cos_sin_cache.dim(1);
    let nh = q_last / head_size;
    let half = nh * (rot / 2);
    let threads = if half < MAX_BLOCK_THREADS {
        half
    } else {
        MAX_BLOCK_THREADS as int
    };
    &&& p.launch.grid_x == nt
    &&& p.launch.grid_y == 1
    &&& p.launch.grid_z == 1
    &&& p.launch.block_x == threads
    &&& p.launch.block_y == 1
    &&& p.launch.block_z == 1
    &&& p.launch.shared_mem_bytes == 0
    &&& p.kernel == (KernelKey {
        family: KernelFamily::RotaryEmbedding,
        variant: if is_neox {
            KernelVariant::Neox
        } else {
            KernelVariant::Normal
        },
        dtype: query.dtype,
        device_ordinal: positions.device.ordinal(),
    })
    &&& p.rot_dim == rot
    &&& p.query_stride == q_last
    &&& p.key_stride == k_last
    &&& p.num_heads == nh
    &&& p.num_kv_heads == k_last / head_size
    &&& p.head_size == head_size
}

/// In-place positional-encoding rotation of query/key tensors prior to
/// caching.
///
/// Validates that all four tensors share one accelerator device and
/// returns the first violation; on success returns the launch description
/// of the dispatch that rotates, for every token, the first `rot_dim`
/// elements of each head by the position-indexed cosine/sine pair, leaving
/// the rest of each head untouched. The pairing convention — split-half
/// ("neox") or interleaved — selects the kernel variant; `rotation_pairs`
/// states which elements each convention couples.
pub fn rotary_embedding(
    positions: &Tensor,
    query: &Tensor,
    key: &Tensor,
    head_size: usize,
    cos_sin_cache: &Tensor,
    is_neox: bool,
) -> (r: Result<RotaryPlan, CacheError>)
    requires
        rotary_shapes_ok(*query, *key, *cos_sin_cache, head_size as int),
    ensures
        match rotary_guard(*positions, *query, *key, *cos_sin_cache) {
            Some(e) => r == Err::<RotaryPlan, CacheError>(e),
            None => (r matches Ok(p) && rotary_plan_ok(
                p,
                *positions,
                *query,
                *key,
                *cos_sin_cache,
                head_size as int,
                is_neox,
            )),
        },
{
    if !positions.device.is_cuda() {
        return Err(CacheError::NotCuda { role: TensorRole::Positions, got: positions.device });
    }
    if !query.device.same_device(positions.device) {
        return Err(
            CacheError::DeviceMismatch {
                role: TensorRole::Query,
                expected: positions.device,
                got: query.device,
            },
        );
    }
    if !key.device.same_device(positions.device) {
        return Err(
            CacheError::DeviceMismatch {
                role: TensorRole::Key,
                expected: positions.device,
                got: key.device,
            },
        );
    }
    if !cos_sin_cache.device.same_device(positions.device) {
        return Err(
            CacheError::DeviceMismatch {
                role: TensorRole::CosSinCache,
                expected: positions.device,
                got: cos_sin_cache.device,
            },
        );
    }
    let q_last = query.dims[query.dims.len() - 1];
    let k_last = key.dims[key.dims.len() - 1];
    let num_tokens = query.data.len() / q_last;
    let rot_dim = cos_sin_cache.dims[1];
    let num_heads = q_last / head_size;
    let num_kv_heads = k_last / head_size;
    let half = num_heads * (rot_dim / 2);
    let threads: u32 = if half < MAX_BLOCK_THREADS as usize {
        half as u32
    } else {
        MAX_BLOCK_THREADS
    };
    Ok(
        RotaryPlan {
            launch: LaunchConfig {
                grid_x: num_tokens as u32,
                grid_y: 1,
                grid_z: 1,
                block_x: threads,
                block_y: 1,
                block_z: 1,
                shared_mem_bytes: 0,
            },
            kernel: KernelKey {
                family: KernelFamily::RotaryEmbedding,
                variant: if is_neox {
                    KernelVariant::Neox
                } else {
                    KernelVariant::Normal
                },
                dtype: query.dtype,
                device_ordinal: positions.device.ordinal_value(),
            },
            rot_dim,
            query_stride: q_last,
            key_stride: k_last,
            num_heads,
            num_kv_heads,
            head_size,
        },
    )
}

/// The element pair that rotated pair `p` of one head couples: under the
/// split-half ("neox") convention, element p with element p + rot_dim/2;
/// under the interleaved convention, element 2p with element 2p + 1.
pub open spec fn rotation_pair(p: int, rot_dim: int, is_neox: bool) -> (int, int) {
    if is_neox {
        (p, p + rot_dim / 2)
    } else {
        (2 * p, 2 * p + 1)
    }
}

/// The rot_dim/2 element pairs that one head's rotation couples, under
/// either convention. Every paired element lies below `rot_dim`: elements
/// from `rot_dim` up to the head size are untouched by the rotation.
pub fn rotation_pairs(rot_dim: usize, is_neox: bool) -> (pairs: Vec<(usize, usize)>)
    requires
        rot_dim >= 2,
        rot_dim % 2 == 0,
    ensures
        pairs@.len() == rot_dim / 2,
        forall|p: int|
            0 <= p < pairs@.len() ==> (pairs@[p].0 as int, pairs@[p].1 as int) == rotation_pair(
                p,
                rot_dim as int,
                is_neox,
            ),
        forall|p: int|
            0 <= p < pairs@.len() ==> (pairs@[p].0 as int) < rot_dim && (pairs@[p].1 as int)
                < rot_dim,
{
    proof {
        lemma_fundamental_div_mod(rot_dim as int, 2);
    }
    let half = rot_dim / 2;
    let mut pairs: Vec<(usize, usize)> = Vec::new();
    let mut p: usize = 0;
    while p < half
        invariant
            p <= half,
            half == rot_dim / 2,
            rot_dim as int == 2 * (rot_dim / 2),
            pairs@.len() == p,
            forall|q: int|
                0 <= q < p ==> (pairs@[q].0 as int, pairs@[q].1 as int) == rotation_pair(
                    q,
                    rot_dim as int,
                    is_neox,
                ),
            forall|q: int|
                0 <= q < p ==> (pairs@[q].0 as int) < rot_dim && (pairs@[q].1 as int) < rot_dim,
        decreases half - p,
    {
        if is_neox {
            pairs.push((p, p + half));
        } else {
            pairs.push((2 * p, 2 * p + 1));
        }
        p = p + 1;
    }
    pairs
}

/// The two pairing conventions are not interchangeable: for any rotation
/// dimensionality of at least four, already the first pair couples
/// different elements. (At rotation dimensionality two the conventions
/// coincide: both couple the only two elements.)
pub proof fn lemma_conventions_differ(rot_dim: int)
    requires
        rot_dim >= 4,
        rot_dim % 2 == 0,
    ensures
        rotation_pair(0, rot_dim, true) != rotation_pair(0, rot_dim, false),
{
    lemma_div_is_ordered(4, rot_dim, 2);
    assert(rot_dim / 2 >= 2);
}

} // verus!
