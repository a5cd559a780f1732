use vstd::prelude::*;
use vstd::arithmetic::div_mod::{
    lemma_fundamental_div_mod, lemma_fundamental_div_mod_converse, lemma_mod_bound,
    lemma_multiply_divide_lt,
};
use crate::error::CacheError;
use crate::layout::{
    enc2, enc3, enc4, enc5, kc_slot_of, vc_slot_of, lemma_enc2_bound, lemma_enc4_bound,
    lemma_enc4_inj, lemma_enc5_bound, lemma_enc5_inj, lemma_kc_slot_of_enc5,
    lemma_vc_slot_of_enc4, lemma_prod1, lemma_prod3, lemma_prod4, lemma_prod5,
};
use crate::plan::{
    CopyBlocksPlan, KernelFamily, KernelKey, KernelVariant, LaunchConfig, ReshapeAndCachePlan,
    SwapKind, SwapPlan, MAX_BLOCK_THREADS, MAX_COPY_BLOCK_THREADS,
};
use crate::tensor::{prod, Device, Dtype, Tensor, TensorRole};

verus! {

// ---------------------------------------------------------------------------
// Element accessors of the paged layouts.
// ---------------------------------------------------------------------------

/// Element (t, h, s) of a [num_tokens, num_heads, head_size] tensor.
pub open spec fn kv_at(a: Tensor, t: int, h: int, s: int) -> u64 {
    a.data@[enc3(t, h, s, a.dim(1), a.dim(2))]
}

/// Element (h, s) of the key-cache entry stored at flat slot `slot`,
/// through the key cache's [num_blocks, num_heads, head_size/x, block_size,
/// x] layout.
pub open spec fn key_cache_at(kc: Tensor, slot: int, h: int, s: int) -> u64 {
    kc.data@[enc5(
        slot / kc.dim(3), h, s / kc.dim(4), slot % kc.dim(3), s % kc.dim(4),
        kc.dim(1), kc.dim(2), kc.dim(3), kc.dim(4),
    )]
}

/// Element (h, s) of the value-cache entry stored at flat slot `slot`,
/// through the value cache's [num_blocks, num_heads, head_size, block_size]
/// layout.
pub open spec fn value_cache_at(vc: Tensor, slot: int, h: int, s: int) -> u64 {
    vc.data@[enc4(slot / vc.dim(3), h, s, slot % vc.dim(3), vc.dim(1), vc.dim(2), vc.dim(3))]
}

// ---------------------------------------------------------------------------
// Validated preconditions of the scatter operation.
// ---------------------------------------------------------------------------

/// The first violated precondition of `reshape_and_cache`, if any: the
/// slot-mapping dtype must be a 64-bit signed integer, key and value and
/// both caches must share one dtype, and all five tensors must live on one
/// accelerator device.
pub open spec fn reshape_guard(
    key: Tensor,
    value: Tensor,
    key_cache: Tensor,
    value_cache: Tensor,
    slot_mapping: Tensor,
) -> Option<CacheError> {
    if slot_mapping.dtype != Dtype::Int64 {
        Some(CacheError::SlotMappingDtype { got: slot_mapping.dtype })
    } else if value.dtype != key.dtype {
        Some(
            CacheError::DtypeMismatch {
                role: TensorRole::Value,
                expected: key.dtype,
                got: value.dtype,
            },
        )
    } else if key_cache.dtype != key.dtype {
        Some(
            CacheError::DtypeMismatch {
                role: TensorRole::KeyCache,
                expected: key.dtype,
                got: key_cache.dtype,
            },
        )
    } else if value_cache.dtype != key.dtype {
        Some(
            CacheError::DtypeMismatch {
                role: TensorRole::ValueCache,
                expected: key.dtype,
                got: value_cache.dtype,
            },
        )
    } else if !(key.device is Cuda) {
        Some(CacheError::NotCuda { role: TensorRole::Key, got: key.device })
    } else if value.device != key.device {
        Some(
            CacheError::DeviceMismatch {
                role: TensorRole::Value,
                expected: key.device,
                got: value.device,
            },
        )
    } else if key_cache.device != key.device {
        Some(
            CacheError::DeviceMismatch {
                role: TensorRole::KeyCache,
                expected: key.device,
                got: key_cache.device,
            },
        )
    } else if value_cache.device != key.device {
        Some(
            CacheError::DeviceMismatch {
                role: TensorRole::ValueCache,
                expected: key.device,
                got: value_cache.device,
            },
        )
    } else if slot_mapping.device != key.device {
        Some(
            CacheError::DeviceMismatch {
                role: TensorRole::SlotMapping,
                expected: key.device,
                got: slot_mapping.device,
            },
        )
    } else {
        None
    }
}

/// Shape coherence of one scatter call: `key`/`value` are [num_tokens,
/// num_heads, head_size]; the key cache is [num_blocks, num_heads,
/// head_size/x, block_size, x]; the value cache is [num_blocks, num_heads,
/// head_size, block_size]; the slot mapping holds one entry per token.
pub open spec fn reshape_shapes_ok(
    key: Tensor,
    value: Tensor,
    key_cache: Tensor,
    value_cache: Tensor,
    slot_mapping: Tensor,
) -> bool {
    let nh = key.dim(1);
    let hs = key.dim(2);
    &&& key.rank() == 3
    &&& value.dims@ == key.dims@
    &&& key_cache.rank() == 5
    &&& value_cache.rank() == 4
    &&& slot_mapping.rank() == 1
    &&& slot_mapping.dim(0) == key.dim(0)
    &&& nh >= 1
    &&& hs >= 1
    &&& key_cache.dim(0) >= 1
    &&& key_cache.dim(1) == nh
    &&& key_cache.dim(2) >= 1
    &&& key_cache.dim(3) >= 1
    &&& key_cache.dim(4) >= 1
    &&& key_cache.dim(2) * key_cache.dim(4) == hs
    &&& value_cache.dim(0) == key_cache.dim(0)
    &&& value_cache.dim(1) == nh
    &&& value_cache.dim(2) == hs
    &&& value_cache.dim(3) == key_cache.dim(3)
}

/// Every slot lies inside the cache: below num_blocks * block_size.
pub open spec fn slots_in_range(slot_mapping: Tensor, num_blocks: int, block_size: int) -> bool {
    forall|t: int|
        0 <= t < slot_mapping.data@.len() ==> (slot_mapping.data@[t] as int) < num_blocks
            * block_size
}

/// Distinct tokens are assigned distinct slots: the scheduler writes one
/// token per slot.
pub open spec fn slots_distinct(slot_mapping: Tensor) -> bool {
    forall|t1: int, t2: int|
        0 <= t1 < t2 < slot_mapping.data@.len() ==> slot_mapping.data@[t1]
            != slot_mapping.data@[t2]
}

/// After a scatter, every token's key and value rows stand at the token's
/// slot, and cache elements whose slot no token was assigned to are
/// unchanged.
pub open spec fn scatter_post(
    key: Tensor,
    value: Tensor,
    kc0: Tensor,
    kc1: Tensor,
    vc0: Tensor,
    vc1: Tensor,
    slots: Seq<u64>,
) -> bool {
    let nt = key.dim(0);
    let nh = key.dim(1);
    let hs = key.dim(2);
    &&& kc1.same_meta(kc0)
    &&& vc1.same_meta(vc0)
    &&& kc1.data@.len() == kc0.data@.len()
    &&& vc1.data@.len() == vc0.data@.len()
    &&& (forall|t: int, h: int, s: int|
        0 <= t < nt && 0 <= h < nh && 0 <= s < hs ==> key_cache_at(kc1, slots[t] as int, h, s)
            == kv_at(key, t, h, s) && value_cache_at(vc1, slots[t] as int, h, s) == kv_at(
            value,
            t,
            h,
            s,
        ))
    &&& (forall|e: int|
        0 <= e < kc0.data@.len() && (forall|t: int|
            0 <= t < nt ==> kc_slot_of(e, kc0.dim(1), kc0.dim(2), kc0.dim(3), kc0.dim(4))
                != slots[t] as int) ==> kc1.data@[e] == kc0.data@[e])
    &&& (forall|e: int|
        0 <= e < vc0.data@.len() && (forall|t: int|
            0 <= t < nt ==> vc_slot_of(e, vc0.dim(1), vc0.dim(2), vc0.dim(3)) != slots[t] as int)
            ==> vc1.data@[e] == vc0.data@[e])
}

/// The launch description of one scatter dispatch: one work-group per
/// token, capped thread count derived from the per-token row, kernel
/// selected by the shared element dtype on the shared device.
pub open spec fn reshape_plan_ok(p: ReshapeAndCachePlan, key: Tensor, key_cache: Tensor) -> bool {
    let nt = key.dim(0);
    let nh = key.dim(1);
    let hs = key.dim(2);
    let threads = if nh * hs < MAX_BLOCK_THREADS { nh * hs } else { MAX_BLOCK_THREADS as int };
    &&& p.launch.grid_x == nt
    &&& p.launch.grid_y == 1
    &&& p.launch.grid_z == 1
    &&& p.launch.block_x == threads
    &&& p.launch.block_y == 1
    &&& p.launch.block_z == 1
    &&& p.launch.shared_mem_bytes == 0
    &&& p.kernel == (KernelKey {
        family: KernelFamily::ReshapeAndCache,
        variant: KernelVariant::Plain,
        dtype: key.dtype,
        device_ordinal: key.device.ordinal(),
    })
    &&& p.key_stride == nh * hs
    &&& p.value_stride == nh * hs
    &&& p.num_heads == nh
    &&& p.head_size == hs
    &&& p.block_size == key_cache.dim(3)
    &&& p.x == key_cache.dim(4)
}

// ---------------------------------------------------------------------------
// Scatter implementation.
// ---------------------------------------------------------------------------

/// Writes token `t`'s key row into the key cache at flat slot `slot`,
/// through the x-split layout; touches nothing outside that slot.
#[verifier::loop_isolation(false)]
fn scatter_token_key(key: &Tensor, key_cache: &mut Tensor, t: usize, slot: usize)
    requires
        key.wf(),
        old(key_cache).wf(),
        key.rank() == 3,
        old(key_cache).rank() == 5,
        key.dim(1) >= 1,
        key.dim(2) >= 1,
        old(key_cache).dim(0) >= 1,
        old(key_cache).dim(1) == key.dim(1),
        old(key_cache).dim(2) >= 1,
        old(key_cache).dim(3) >= 1,
        old(key_cache).dim(4) >= 1,
        old(key_cache).dim(2) * old(key_cache).dim(4) == key.dim(2),
        t < key.dim(0),
        slot < old(key_cache).dim(0) * old(key_cache).dim(3),
    ensures
        final(key_cache).same_meta(*old(key_cache)),
        final(key_cache).wf(),
        final(key_cache).data@.len() == old(key_cache).data@.len(),
        forall|h: int, s: int|
            0 <= h < key.dim(1) && 0 <= s < key.dim(2) ==> key_cache_at(
                *final(key_cache),
                slot as int,
                h,
                s,
            ) == kv_at(*key, t as int, h, s),
        forall|e: int|
            0 <= e < old(key_cache).data@.len() && kc_slot_of(
                e,
                old(key_cache).dim(1),
                old(key_cache).dim(2),
                old(key_cache).dim(3),
                old(key_cache).dim(4),
            ) != slot as int ==> final(key_cache).data@[e] == old(key_cache).data@[e],
{
    let nb = key_cache.dims[0];
    let nh = key_cache.dims[1];
    let nsx = key_cache.dims[2];
    let bs = key_cache.dims[3];
    let nx = key_cache.dims[4];
    let hs = key.dims[2];
    let nt = key.dims[0];
    let b = slot / bs;
    let off = slot % bs;
    proof {
        lemma_prod5(key_cache.dims@);
        lemma_prod3(key.dims@);
        assert((slot as int) < (bs as int) * (nb as int)) by (nonlinear_arith)
            requires
                (slot as int) < (nb as int) * (bs as int),
        ;
        lemma_multiply_divide_lt(slot as int, bs as int, nb as int);
        lemma_mod_bound(slot as int, bs as int);
        lemma_fundamental_div_mod(slot as int, bs as int);
        assert((b as int) * (bs as int) + (off as int) == slot as int) by (nonlinear_arith)
            requires
                slot as int == (bs as int) * (b as int) + (off as int),
        ;
        // Every partial product of the encoding stays within the element count.
        assert((nb as int) * (nh as int) <= key_cache.data@.len() && (nb as int) * (nh as int)
            * (nsx as int) <= key_cache.data@.len() && (nb as int) * (nh as int) * (nsx as int)
            * (bs as int) <= key_cache.data@.len()) by (nonlinear_arith)
            requires
                nb >= 1 && nh >= 1 && nsx >= 1 && bs >= 1 && nx >= 1,
                key_cache.data@.len() == (nb as int) * (nh as int) * (nsx as int) * (bs as int) * (
                nx as int),
        ;
        // The key rows also stay within the key element count.
        assert((nt as int) * (nh as int) <= key.data@.len()) by (nonlinear_arith)
            requires
                nt >= 1 && nh >= 1 && hs >= 1,
                key.data@.len() == (nt as int) * (nh as int) * (hs as int),
        ;
    }
    let ghost kc0 = *key_cache;
    let mut h: usize = 0;
    while h < nh
        invariant
            h <= nh,
            key_cache.same_meta(kc0),
            key_cache.data@.len() == kc0.data@.len(),
            forall|h2: int, s2: int|
                0 <= h2 < h && 0 <= s2 < hs ==> key_cache_at(*key_cache, slot as int, h2, s2)
                    == kv_at(*key, t as int, h2, s2),
            forall|e: int|
                0 <= e < kc0.data@.len() && kc_slot_of(
                    e,
                    nh as int,
                    nsx as int,
                    bs as int,
                    nx as int,
                ) != slot as int ==> key_cache.data@[e] == kc0.data@[e],
        decreases nh - h,
    {
        let mut s: usize = 0;
        while s < hs
            invariant
                h < nh,
                s <= hs,
                key_cache.same_meta(kc0),
                key_cache.data@.len() == kc0.data@.len(),
                forall|h2: int, s2: int|
                    0 <= h2 < h && 0 <= s2 < hs ==> key_cache_at(*key_cache, slot as int, h2, s2)
                        == kv_at(*key, t as int, h2, s2),
                forall|s2: int|
                    0 <= s2 < s ==> key_cache_at(*key_cache, slot as int, h as int, s2) == kv_at(
                        *key,
                        t as int,
                        h as int,
                        s2,
                    ),
                forall|e: int|
                    0 <= e < kc0.data@.len() && kc_slot_of(
                        e,
                        nh as int,
                        nsx as int,
                        bs as int,
                        nx as int,
                    ) != slot as int ==> key_cache.data@[e] == kc0.data@[e],
            decreases hs - s,
        {
            let sx = s / nx;
            let xi = s % nx;
            proof {
                assert((s as int) < (nx as int) * (nsx as int)) by (nonlinear_arith)
                    requires
                        (s as int) < (nsx as int) * (nx as int),
                ;
                lemma_multiply_divide_lt(s as int, nx as int, nsx as int);
                lemma_mod_bound(s as int, nx as int);
                lemma_fundamental_div_mod(s as int, nx as int);
                lemma_enc2_bound(b as int, h as int, nb as int, nh as int);
                lemma_enc2_bound(
                    enc2(b as int, h as int, nh as int),
                    sx as int,
                    (nb as int) * (nh as int),
                    nsx as int,
                );
                lemma_enc2_bound(
                    enc3(b as int, h as int, sx as int, nh as int, nsx as int),
                    off as int,
                    (nb as int) * (nh as int) * (nsx as int),
                    bs as int,
                );
                lemma_enc5_bound(
                    b as int, h as int, sx as int, off as int, xi as int,
                    nb as int, nh as int, nsx as int, bs as int, nx as int,
                );
                lemma_enc2_bound(t as int, h as int, nt as int, nh as int);
                lemma_enc2_bound(
                    enc2(t as int, h as int, nh as int),
                    s as int,
                    (nt as int) * (nh as int),
                    hs as int,
                );
            }
            let e = (((b * nh + h) * nsx + sx) * bs + off) * nx + xi;
            let v = key.data[(t * nh + h) * hs + s];
            let ghost before = *key_cache;
            key_cache.data.set(e, v);
            proof {
                lemma_kc_slot_of_enc5(
                    b as int, h as int, sx as int, off as int, xi as int,
                    nh as int, nsx as int, bs as int, nx as int,
                );
                assert(key_cache_at(*key_cache, slot as int, h as int, s as int) == v);
                assert forall|s2: int| 0 <= s2 < s implies key_cache_at(
                    *key_cache,
                    slot as int,
                    h as int,
                    s2,
                ) == kv_at(*key, t as int, h as int, s2) by {
                    lemma_mod_bound(s2, nx as int);
                    assert(s2 < (nx as int) * (nsx as int)) by (nonlinear_arith)
                        requires
                            s2 < (nsx as int) * (nx as int),
                    ;
                    lemma_multiply_divide_lt(s2, nx as int, nsx as int);
                    lemma_enc5_bound(
                        b as int, h as int, s2 / (nx as int), off as int, s2 % (nx as int),
                        nb as int, nh as int, nsx as int, bs as int, nx as int,
                    );
                    if enc5(
                        b as int, h as int, s2 / (nx as int), off as int, s2 % (nx as int),
                        nh as int, nsx as int, bs as int, nx as int,
                    ) == e as int {
                        lemma_enc5_inj(
                            b as int, h as int, s2 / (nx as int), off as int, s2 % (nx as int),
                            b as int, h as int, sx as int, off as int, xi as int,
                            nh as int, nsx as int, bs as int, nx as int,
                        );
                        lemma_fundamental_div_mod(s2, nx as int);
                        assert(false);
                    }
                }
                assert forall|h2: int, s2: int| 0 <= h2 < h && 0 <= s2 < hs implies key_cache_at(
                    *key_cache,
                    slot as int,
                    h2,
                    s2,
                ) == kv_at(*key, t as int, h2, s2) by {
                    lemma_mod_bound(s2, nx as int);
                    assert(s2 < (nx as int) * (nsx as int)) by (nonlinear_arith)
                        requires
                            s2 < (nsx as int) * (nx as int),
                    ;
                    lemma_multiply_divide_lt(s2, nx as int, nsx as int);
                    lemma_enc5_bound(
                        b as int, h2, s2 / (nx as int), off as int, s2 % (nx as int),
                        nb as int, nh as int, nsx as int, bs as int, nx as int,
                    );
                    lemma_fundamental_div_mod(s2, nx as int);
                    if enc5(
                        b as int, h2, s2 / (nx as int), off as int, s2 % (nx as int),
                        nh as int, nsx as int, bs as int, nx as int,
                    ) == e as int {
                        lemma_enc5_inj(
                            b as int, h2, s2 / (nx as int), off as int, s2 % (nx as int),
                            b as int, h as int, sx as int, off as int, xi as int,
                            nh as int, nsx as int, bs as int, nx as int,
                        );
                        assert(false);
                    }
                }
            }
            s = s + 1;
        }
        h = h + 1;
    }
}

/// Writes token `t`'s value row into the value cache at flat slot `slot`,
/// through the flat [num_heads, head_size, block_size] per-block layout;
/// touches nothing outside that slot.
#[verifier::loop_isolation(false)]
fn scatter_token_value(value: &Tensor, value_cache: &mut Tensor, t: usize, slot: usize)
    requires
        value.wf(),
        old(value_cache).wf(),
        value.rank() == 3,
        old(value_cache).rank() == 4,
        value.dim(1) >= 1,
        value.dim(2) >= 1,
        old(value_cache).dim(0) >= 1,
        old(value_cache).dim(1) == value.dim(1),
        old(value_cache).dim(2) == value.dim(2),
        old(value_cache).dim(3) >= 1,
        t < value.dim(0),
        slot < old(value_cache).dim(0) * old(value_cache).dim(3),
    ensures
        final(value_cache).same_meta(*old(value_cache)),
        final(value_cache).wf(),
        final(value_cache).data@.len() == old(value_cache).data@.len(),
        forall|h: int, s: int|
            0 <= h < value.dim(1) && 0 <= s < value.dim(2) ==> value_cache_at(
                *final(value_cache),
                slot as int,
                h,
                s,
            ) == kv_at(*value, t as int, h, s),
        forall|e: int|
            0 <= e < old(value_cache).data@.len() && vc_slot_of(
                e,
                old(value_cache).dim(1),
                old(value_cache).dim(2),
                old(value_cache).dim(3),
            ) != slot as int ==> final(value_cache).data@[e] == old(value_cache).data@[e],
{
    let nb = value_cache.dims[0];
    let nh = value_cache.dims[1];
    let hs = value_cache.dims[2];
    let bs = value_cache.dims[3];
    let nt = value.dims[0];
    let b = slot / bs;
    let off = slot % bs;
    proof {
        lemma_prod4(value_cache.dims@);
        lemma_prod3(value.dims@);
        assert((slot as int) < (bs as int) * (nb as int)) by (nonlinear_arith)
            requires
                (slot as int) < (nb as int) * (bs as int),
        ;
        lemma_multiply_divide_lt(slot as int, bs as int, nb as int);
        lemma_mod_bound(slot as int, bs as int);
        lemma_fundamental_div_mod(slot as int, bs as int);
        assert((b as int) * (bs as int) + (off as int) == slot as int) by (nonlinear_arith)
            requires
                slot as int == (bs as int) * (b as int) + (off as int),
        ;
        assert((nb as int) * (nh as int) <= value_cache.data@.len() && (nb as int) * (nh as int)
            * (hs as int) <= value_cache.data@.len()) by (nonlinear_arith)
            requires
                nb >= 1 && nh >= 1 && hs >= 1 && bs >= 1,
                value_cache.data@.len() == (nb as int) * (nh as int) * (hs as int) * (bs as int),
        ;
        assert((nt as int) * (nh as int) <= value.data@.len()) by (nonlinear_arith)
            requires
                nt >= 1 && nh >= 1 && hs >= 1,
                value.data@.len() == (nt as int) * (nh as int) * (hs as int),
        ;
    }
    let ghost vc0 = *value_cache;
    let mut h: usize = 0;
    while h < nh
        invariant
            h <= nh,
            value_cache.same_meta(vc0),
            value_cache.data@.len() == vc0.data@.len(),
            forall|h2: int, s2: int|
                0 <= h2 < h && 0 <= s2 < hs ==> value_cache_at(*value_cache, slot as int, h2, s2)
                    == kv_at(*value, t as int, h2, s2),
            forall|e: int|
                0 <= e < vc0.data@.len() && vc_slot_of(e, nh as int, hs as int, bs as int)
                    != slot as int ==> value_cache.data@[e] == vc0.data@[e],
        decreases nh - h,
    {
        let mut s: usize = 0;
        while s < hs
            invariant
                h < nh,
                s <= hs,
                value_cache.same_meta(vc0),
                value_cache.data@.len() == vc0.data@.len(),
                forall|h2: int, s2: int|
                    0 <= h2 < h && 0 <= s2 < hs ==> value_cache_at(
                        *value_cache,
                        slot as int,
                        h2,
                        s2,
                    ) == kv_at(*value, t as int, h2, s2),
                forall|s2: int|
                    0 <= s2 < s ==> value_cache_at(*value_cache, slot as int, h as int, s2)
                        == kv_at(*value, t as int, h as int, s2),
                forall|e: int|
                    0 <= e < vc0.data@.len() && vc_slot_of(e, nh as int, hs as int, bs as int)
                        != slot as int ==> value_cache.data@[e] == vc0.data@[e],
            decreases hs - s,
        {
            proof {
                lemma_enc2_bound(b as int, h as int, nb as int, nh as int);
                lemma_enc2_bound(
                    enc2(b as int, h as int, nh as int),
                    s as int,
                    (nb as int) * (nh as int),
                    hs as int,
                );
                lemma_enc4_bound(
                    b as int, h as int, s as int, off as int,
                    nb as int, nh as int, hs as int, bs as int,
                );
                lemma_enc2_bound(t as int, h as int, nt as int, nh as int);
                lemma_enc2_bound(
                    enc2(t as int, h as int, nh as int),
                    s as int,
                    (nt as int) * (nh as int),
                    hs as int,
                );
            }
            let e = ((b * nh + h) * hs + s) * bs + off;
            let v = value.data[(t * nh + h) * hs + s];
            value_cache.data.set(e, v);
            proof {
                lemma_vc_slot_of_enc4(
                    b as int, h as int, s as int, off as int,
                    nh as int, hs as int, bs as int,
                );
                assert(value_cache_at(*value_cache, slot as int, h as int, s as int) == v);
                assert forall|s2: int| 0 <= s2 < s implies value_cache_at(
                    *value_cache,
                    slot as int,
                    h as int,
                    s2,
                ) == kv_at(*value, t as int, h as int, s2) by {
                    lemma_enc4_bound(
                        b as int, h as int, s2, off as int,
                        nb as int, nh as int, hs as int, bs as int,
                    );
                    if enc4(
                        b as int, h as int, s2, off as int, nh as int, hs as int, bs as int,
                    ) == e as int {
                        lemma_enc4_inj(
                            b as int, h as int, s2, off as int,
                            b as int, h as int, s as int, off as int,
                            nh as int, hs as int, bs as int,
                        );
                        assert(false);
                    }
                }
                assert forall|h2: int, s2: int| 0 <= h2 < h && 0 <= s2 < hs implies value_cache_at(
                    *value_cache,
                    slot as int,
                    h2,
                    s2,
                ) == kv_at(*value, t as int, h2, s2) by {
                    lemma_enc4_bound(
                        b as int, h2, s2, off as int,
                        nb as int, nh as int, hs as int, bs as int,
                    );
                    if enc4(b as int, h2, s2, off as int, nh as int, hs as int, bs as int)
                        == e as int {
                        lemma_enc4_inj(
                            b as int, h2, s2, off as int,
                            b as int, h as int, s as int, off as int,
                            nh as int, hs as int, bs as int,
                        );
                        assert(false);
                    }
                }
            }
            s = s + 1;
        }
        h = h + 1;
    }
}

/// Scatters per-token key/value activations into their assigned cache-block
/// slots.
///
/// Validates the dtype and device preconditions in order and returns the
/// first violation without touching either cache. On success, writes token
/// `t`'s key and value rows at slot `slot_mapping[t]` for every token
/// (leaving every other slot unchanged) and returns the launch description
/// of the single kernel dispatch that performs the same scatter on device
/// memory: one work-group per token. The scheduler assigns every token its
/// own slot, so the slot mapping is injective and each slot lies inside
/// the cache.
#[verifier::loop_isolation(false)]
pub fn reshape_and_cache(
    key: &Tensor,
    value: &Tensor,
    key_cache: &mut Tensor,
    value_cache: &mut Tensor,
    slot_mapping: &Tensor,
) -> (r: Result<ReshapeAndCachePlan, CacheError>)
    requires
        key.wf(),
        value.wf(),
        old(key_cache).wf(),
        old(value_cache).wf(),
        slot_mapping.wf(),
        reshape_shapes_ok(*key, *value, *old(key_cache), *old(value_cache), *slot_mapping),
        slots_in_range(*slot_mapping, old(key_cache).dim(0), old(key_cache).dim(3)),
        slots_distinct(*slot_mapping),
        key.dim(0) <= u32::MAX,
        key.dim(1) * key.dim(2) <= u32::MAX,
    ensures
        match reshape_guard(*key, *value, *old(key_cache), *old(value_cache), *slot_mapping) {
            Some(e) => r == Err::<ReshapeAndCachePlan, CacheError>(e) && *final(key_cache)
                == *old(key_cache) && *final(value_cache) == *old(value_cache),
            None => (r matches Ok(p) && reshape_plan_ok(p, *key, *old(key_cache)) && scatter_post(
                *key,
                *value,
                *old(key_cache),
                *final(key_cache),
                *old(value_cache),
                *final(value_cache),
                slot_mapping.data@,
            )),
        },
{
    if slot_mapping.dtype != Dtype::Int64 {
        return Err(CacheError::SlotMappingDtype { got: slot_mapping.dtype });
    }
    if value.dtype != key.dtype {
        return Err(
            CacheError::DtypeMismatch {
                role: TensorRole::Value,
                expected: key.dtype,
                got: value.dtype,
            },
        );
    }
    if key_cache.dtype != key.dtype {
        return Err(
            CacheError::DtypeMismatch {
                role: TensorRole::KeyCache,
                expected: key.dtype,
                got: key_cache.dtype,
            },
        );
    }
    if value_cache.dtype != key.dtype {
        return Err(
            CacheError::DtypeMismatch {
                role: TensorRole::ValueCache,
                expected: key.dtype,
                got: value_cache.dtype,
            },
        );
    }
    if !key.device.is_cuda() {
        return Err(CacheError::NotCuda { role: TensorRole::Key, got: key.device });
    }
    if !value.device.same_device(key.device) {
        return Err(
            CacheError::DeviceMismatch {
                role: TensorRole::Value,
                expected: key.device,
                got: value.device,
            },
        );
    }
    if !key_cache.device.same_device(key.device) {
        return Err(
            CacheError::DeviceMismatch {
                role: TensorRole::KeyCache,
                expected: key.device,
                got: key_cache.device,
            },
        );
    }
    if !value_cache.device.same_device(key.device) {
        return Err(
            CacheError::DeviceMismatch {
                role: TensorRole::ValueCache,
                expected: key.device,
                got: value_cache.device,
            },
        );
    }
    if !slot_mapping.device.same_device(key.device) {
        return Err(
            CacheError::DeviceMismatch {
                role: TensorRole::SlotMapping,
                expected: key.device,
                got: slot_mapping.device,
            },
        );
    }
    let nt = key.dims[0];
    let nh = key.dims[1];
    let hs = key.dims[2];
    let nb = key_cache.dims[0];
    let bs = key_cache.dims[3];
    let row = nh * hs;
    let threads: u32 = if row < MAX_BLOCK_THREADS as usize {
        row as u32
    } else {
        MAX_BLOCK_THREADS
    };
    let plan = ReshapeAndCachePlan {
        launch: LaunchConfig {
            grid_x: nt as u32,
            grid_y: 1,
            grid_z: 1,
            block_x: threads,
            block_y: 1,
            block_z: 1,
            shared_mem_bytes: 0,
        },
        kernel: KernelKey {
            family: KernelFamily::ReshapeAndCache,
            variant: KernelVariant::Plain,
            dtype: key.dtype,
            device_ordinal: key.device.ordinal_value(),
        },
        key_stride: row,
        value_stride: row,
        num_heads: nh,
        head_size: hs,
        block_size: bs,
        x: key_cache.dims[4],
    };
    proof {
        lemma_prod5(key_cache.dims@);
        lemma_prod4(value_cache.dims@);
        lemma_prod1(slot_mapping.dims@);
        let kclen = key_cache.data@.len() as int;
        let d1 = key_cache.dim(1);
        let d2 = key_cache.dim(2);
        let d4 = key_cache.dim(4);
        assert((nb as int) * (bs as int) <= kclen) by (nonlinear_arith)
            requires
                kclen == (nb as int) * d1 * d2 * (bs as int) * d4,
                d1 >= 1,
                d2 >= 1,
                d4 >= 1,
                nb >= 1,
                bs >= 1,
        ;
    }
    let ghost kc0 = *key_cache;
    let ghost vc0 = *value_cache;
    let ghost slots = slot_mapping.data@;
    let mut t: usize = 0;
    while t < nt
        invariant
            t <= nt,
            key_cache.same_meta(kc0),
            value_cache.same_meta(vc0),
            key_cache.data@.len() == kc0.data@.len(),
            value_cache.data@.len() == vc0.data@.len(),
            forall|t2: int, h: int, s: int|
                0 <= t2 < t && 0 <= h < nh && 0 <= s < hs ==> key_cache_at(
                    *key_cache,
                    slots[t2] as int,
                    h,
                    s,
                ) == kv_at(*key, t2, h, s) && value_cache_at(*value_cache, slots[t2] as int, h, s)
                    == kv_at(*value, t2, h, s),
            forall|e: int|
                0 <= e < kc0.data@.len() && (forall|t2: int|
                    0 <= t2 < t ==> kc_slot_of(e, kc0.dim(1), kc0.dim(2), kc0.dim(3), kc0.dim(4))
                        != slots[t2] as int) ==> key_cache.data@[e] == kc0.data@[e],
            forall|e: int|
                0 <= e < vc0.data@.len() && (forall|t2: int|
                    0 <= t2 < t ==> vc_slot_of(e, vc0.dim(1), vc0.dim(2), vc0.dim(3))
                        != slots[t2] as int) ==> value_cache.data@[e] == vc0.data@[e],
        decreases nt - t,
    {
        let slot64 = slot_mapping.data[t];
        proof {
            assert((slot64 as int) < (nb as int) * (bs as int));
            assert(slot64 <= usize::MAX as u64);
        }
        let slot = slot64 as usize;
        let ghost kc_before = *key_cache;
        let ghost vc_before = *value_cache;
        scatter_token_key(key, key_cache, t, slot);
        scatter_token_value(value, value_cache, t, slot);
        proof {
            let bsi = kc0.dim(3);
            // Rows written for earlier tokens sit at other slots, which this
            // token's scatter left untouched.
            assert forall|t2: int, h: int, s: int|
                0 <= t2 < t && 0 <= h < nh && 0 <= s < hs implies key_cache_at(
                *key_cache,
                slots[t2] as int,
                h,
                s,
            ) == kv_at(*key, t2, h, s) && value_cache_at(*value_cache, slots[t2] as int, h, s)
                == kv_at(*value, t2, h, s) by {
                let sl2 = slots[t2] as int;
                lemma_mod_bound(sl2, bsi);
                lemma_mod_bound(s, kc0.dim(4));
                assert(s < kc0.dim(4) * kc0.dim(2)) by (nonlinear_arith)
                    requires
                        s < kc0.dim(2) * kc0.dim(4),
                ;
                lemma_multiply_divide_lt(s, kc0.dim(4), kc0.dim(2));
                assert(sl2 < (nb as int) * (bs as int));
                assert((sl2 as int) < (bs as int) * (nb as int)) by (nonlinear_arith)
                    requires
                        sl2 < (nb as int) * (bs as int),
                ;
                lemma_multiply_divide_lt(sl2, bsi, nb as int);
                lemma_fundamental_div_mod(sl2, bsi);
                lemma_kc_slot_of_enc5(
                    sl2 / bsi, h, s / kc0.dim(4), sl2 % bsi, s % kc0.dim(4),
                    kc0.dim(1), kc0.dim(2), kc0.dim(3), kc0.dim(4),
                );
                lemma_vc_slot_of_enc4(
                    sl2 / bsi, h, s, sl2 % bsi, vc0.dim(1), vc0.dim(2), vc0.dim(3),
                );
                lemma_enc5_bound(
                    sl2 / bsi, h, s / kc0.dim(4), sl2 % bsi, s % kc0.dim(4),
                    kc0.dim(0), kc0.dim(1), kc0.dim(2), kc0.dim(3), kc0.dim(4),
                );
                lemma_enc4_bound(
                    sl2 / bsi, h, s, sl2 % bsi,
                    vc0.dim(0), vc0.dim(1), vc0.dim(2), vc0.dim(3),
                );
                assert((sl2 / bsi) * bsi + sl2 % bsi == sl2) by (nonlinear_arith)
                    requires
                        sl2 == bsi * (sl2 / bsi) + sl2 % bsi,
                ;
                assert(slots[t2] != slots[t as int]);
                assert(kc_slot_of(
                    enc5(
                        sl2 / bsi, h, s / kc0.dim(4), sl2 % bsi, s % kc0.dim(4),
                        kc0.dim(1), kc0.dim(2), kc0.dim(3), kc0.dim(4),
                    ),
                    kc0.dim(1), kc0.dim(2), kc0.dim(3), kc0.dim(4),
                ) != slot as int);
                assert(key_cache.data@[enc5(
                    sl2 / bsi, h, s / kc0.dim(4), sl2 % bsi, s % kc0.dim(4),
                    kc0.dim(1), kc0.dim(2), kc0.dim(3), kc0.dim(4),
                )] == kc_before.data@[enc5(
                    sl2 / bsi, h, s / kc0.dim(4), sl2 % bsi, s % kc0.dim(4),
                    kc0.dim(1), kc0.dim(2), kc0.dim(3), kc0.dim(4),
                )]);
            }
            // Elements at slots no token up to and including this one was
            // assigned to are untouched.
            assert forall|e: int|
                0 <= e < kc0.data@.len() && (forall|t2: int|
                    0 <= t2 < t + 1 ==> kc_slot_of(e, kc0.dim(1), kc0.dim(2), kc0.dim(3), kc0.dim(
                        4,
                    )) != slots[t2] as int) implies key_cache.data@[e] == kc0.data@[e] by {
                assert(kc_slot_of(e, kc0.dim(1), kc0.dim(2), kc0.dim(3), kc0.dim(4))
                    != slots[t as int] as int);
                assert(kc_before.data@[e] == kc0.data@[e]);
            }
            assert forall|e: int|
                0 <= e < vc0.data@.len() && (forall|t2: int|
                    0 <= t2 < t + 1 ==> vc_slot_of(e, vc0.dim(1), vc0.dim(2), vc0.dim(3))
                        != slots[t2] as int) implies value_cache.data@[e] == vc0.data@[e] by {
                assert(vc_slot_of(e, vc0.dim(1), vc0.dim(2), vc0.dim(3)) != slots[t as int] as int);
                assert(vc_before.data@[e] == vc0.data@[e]);
            }
        }
        t = t + 1;
    }
    Ok(plan)
}

/// Reads back the key-cache entry for `slot` at head `h`, element `s`:
/// the element a scatter wrote there through the x-split layout.
pub fn key_cache_entry(key_cache: &Tensor, slot: usize, h: usize, s: usize) -> (r: u64)
    requires
        key_cache.wf(),
        key_cache.rank() == 5,
        key_cache.dim(0) >= 1,
        key_cache.dim(1) >= 1,
        key_cache.dim(2) >= 1,
        key_cache.dim(3) >= 1,
        key_cache.dim(4) >= 1,
        slot < key_cache.dim(0) * key_cache.dim(3),
        h < key_cache.dim(1),
        s < key_cache.dim(2) * key_cache.dim(4),
    ensures
        r == key_cache_at(*key_cache, slot as int, h as int, s as int),
{
    let nb = key_cache.dims[0];
    let nh = key_cache.dims[1];
    let nsx = key_cache.dims[2];
    let bs = key_cache.dims[3];
    let nx = key_cache.dims[4];
    let b = slot / bs;
    let off = slot % bs;
    let sx = s / nx;
    let xi = s % nx;
    proof {
        lemma_prod5(key_cache.dims@);
        assert((slot as int) < (bs as int) * (nb as int)) by (nonlinear_arith)
            requires
                (slot as int) < (nb as int) * (bs as int),
        ;
        lemma_multiply_divide_lt(slot as int, bs as int, nb as int);
        lemma_mod_bound(slot as int, bs as int);
        assert((s as int) < (nx as int) * (nsx as int)) by (nonlinear_arith)
            requires
                (s as int) < (nsx as int) * (nx as int),
        ;
        lemma_multiply_divide_lt(s as int, nx as int, nsx as int);
        lemma_mod_bound(s as int, nx as int);
        lemma_enc2_bound(b as int, h as int, nb as int, nh as int);
        lemma_enc2_bound(
            enc2(b as int, h as int, nh as int),
            sx as int,
            (nb as int) * (nh as int),
            nsx as int,
        );
        lemma_enc2_bound(
            enc3(b as int, h as int, sx as int, nh as int, nsx as int),
            off as int,
            (nb as int) * (nh as int) * (nsx as int),
            bs as int,
        );
        lemma_enc5_bound(
            b as int, h as int, sx as int, off as int, xi as int,
            nb as int, nh as int, nsx as int, bs as int, nx as int,
        );
        assert((nb as int) * (nh as int) <= key_cache.data@.len() && (nb as int) * (nh as int)
            * (nsx as int) <= key_cache.data@.len() && (nb as int) * (nh as int) * (nsx as int)
            * (bs as int) <= key_cache.data@.len()) by (nonlinear_arith)
            requires
                nb >= 1 && nh >= 1 && nsx >= 1 && bs >= 1 && nx >= 1,
                key_cache.data@.len() == (nb as int) * (nh as int) * (nsx as int) * (bs as int) * (
                nx as int),
        ;
    }
    key_cache.data[(((b * nh + h) * nsx + sx) * bs + off) * nx + xi]
}

/// Reads back the value-cache entry for `slot` at head `h`, element `s`.
pub fn value_cache_entry(value_cache: &Tensor, slot: usize, h: usize, s: usize) -> (r: u64)
    requires
        value_cache.wf(),
        value_cache.rank() == 4,
        value_cache.dim(0) >= 1,
        value_cache.dim(1) >= 1,
        value_cache.dim(2) >= 1,
        value_cache.dim(3) >= 1,
        slot < value_cache.dim(0) * value_cache.dim(3),
        h < value_cache.dim(1),
        s < value_cache.dim(2),
    ensures
        r == value_cache_at(*value_cache, slot as int, h as int, s as int),
{
    let nb = value_cache.dims[0];
    let nh = value_cache.dims[1];
    let hs = value_cache.dims[2];
    let bs = value_cache.dims[3];
    let b = slot / bs;
    let off = slot % bs;
    proof {
        lemma_prod4(value_cache.dims@);
        assert((slot as int) < (bs as int) * (nb as int)) by (nonlinear_arith)
            requires
                (slot as int) < (nb as int) * (bs as int),
        ;
        lemma_multiply_divide_lt(slot as int, bs as int, nb as int);
        lemma_mod_bound(slot as int, bs as int);
        lemma_enc2_bound(b as int, h as int, nb as int, nh as int);
        lemma_enc2_bound(
            enc2(b as int, h as int, nh as int),
            s as int,
            (nb as int) * (nh as int),
            hs as int,
        );
        lemma_enc4_bound(
            b as int, h as int, s as int, off as int,
            nb as int, nh as int, hs as int, bs as int,
        );
        assert((nb as int) * (nh as int) <= value_cache.data@.len() && (nb as int) * (nh as int)
            * (hs as int) <= value_cache.data@.len()) by (nonlinear_arith)
            requires
                nb >= 1 && nh >= 1 && hs >= 1 && bs >= 1,
                value_cache.data@.len() == (nb as int) * (nh as int) * (hs as int) * (bs as int),
        ;
    }
    value_cache.data[((b * nh + h) * hs + s) * bs + off]
}

// ---------------------------------------------------------------------------
// Block-granularity copies: copy_blocks and swap_blocks.
// ---------------------------------------------------------------------------

/// The contents of block `b` of a cache whose blocks hold `bn` elements.
pub open spec fn block_at(data: Seq<u64>, b: int, bn: int) -> Seq<u64> {
    data.subrange(b * bn, b * bn + bn)
}

/// One block copy: block `d` now holds what block `s` held before the
/// copy; every element outside block `d` is unchanged.
pub open spec fn copy_one(data: Seq<u64>, s: int, d: int, bn: int) -> Seq<u64> {
    Seq::new(
        data.len(),
        |i: int|
            if d * bn <= i < d * bn + bn {
                data[s * bn + (i - d * bn)]
            } else {
                data[i]
            },
    )
}

/// The contents after applying a list of (source, destination) block
/// copies in order.
pub open spec fn apply_pairs(data: Seq<u64>, pairs: Seq<(usize, usize)>, bn: int) -> Seq<u64>
    decreases pairs.len(),
{
    if pairs.len() == 0 {
        data
    } else {
        apply_pairs(copy_one(data, pairs[0].0 as int, pairs[0].1 as int, bn), pairs.skip(1), bn)
    }
}

/// The (source, destination) pairs of one block-mapping entry: one pair
/// per destination, all out of the entry's source.
pub open spec fn entry_pairs(entry: (usize, Vec<usize>)) -> Seq<(usize, usize)> {
    Seq::new(entry.1@.len(), |i: int| (entry.0, entry.1@[i]))
}

/// A block mapping flattened into (source, destination) pairs, in order.
pub open spec fn flat_pairs(mapping: Seq<(usize, Vec<usize>)>) -> Seq<(usize, usize)>
    decreases mapping.len(),
{
    if mapping.len() == 0 {
        Seq::empty()
    } else {
        entry_pairs(mapping[0]) + flat_pairs(mapping.skip(1))
    }
}

/// Every source and destination of a pair list names a block.
pub open spec fn pairs_in_range(pairs: Seq<(usize, usize)>, nb: int) -> bool {
    forall|i: int|
        0 <= i < pairs.len() ==> (pairs[i].0 as int) < nb && (pairs[i].1 as int) < nb
}

/// Extending the flattened prefix of a mapping by one entry appends that
/// entry's pairs.
proof fn lemma_flat_pairs_take(mapping: Seq<(usize, Vec<usize>)>, k: int)
    requires
        0 <= k < mapping.len(),
    ensures
        flat_pairs(mapping.take(k + 1)) == flat_pairs(mapping.take(k)) + entry_pairs(mapping[k]),
    decreases k,
{
    if k == 0 {
        assert(mapping.take(1)[0] == mapping[0]);
        assert(mapping.take(1).skip(1) =~= Seq::<(usize, Vec<usize>)>::empty());
        assert(mapping.take(0) =~= Seq::<(usize, Vec<usize>)>::empty());
        assert(flat_pairs(mapping.take(1)) =~= flat_pairs(mapping.take(0)) + entry_pairs(
            mapping[0],
        ));
    } else {
        lemma_flat_pairs_take(mapping.skip(1), k - 1);
        assert(mapping.take(k + 1)[0] == mapping[0]);
        assert(mapping.take(k)[0] == mapping[0]);
        assert(mapping.take(k + 1).skip(1) =~= mapping.skip(1).take(k));
        assert(mapping.take(k).skip(1) =~= mapping.skip(1).take(k - 1));
        assert(mapping.skip(1)[k - 1] == mapping[k]);
        assert((entry_pairs(mapping[0]) + flat_pairs(mapping.skip(1).take(k - 1))) + entry_pairs(
            mapping[k],
        ) =~= entry_pairs(mapping[0]) + (flat_pairs(mapping.skip(1).take(k - 1)) + entry_pairs(
            mapping[k],
        )));
    }
}

/// Applying one more pair of a prefix is one more block copy.
proof fn lemma_apply_pairs_take(data: Seq<u64>, pairs: Seq<(usize, usize)>, j: int, bn: int)
    requires
        0 <= j < pairs.len(),
    ensures
        apply_pairs(data, pairs.take(j + 1), bn) == copy_one(
            apply_pairs(data, pairs.take(j), bn),
            pairs[j].0 as int,
            pairs[j].1 as int,
            bn,
        ),
    decreases j,
{
    if j == 0 {
        assert(pairs.take(1)[0] == pairs[0]);
        assert(pairs.take(1).skip(1) =~= Seq::<(usize, usize)>::empty());
        assert(pairs.take(0) =~= Seq::<(usize, usize)>::empty());
        assert(apply_pairs(data, pairs.take(0), bn) == data);
        assert(apply_pairs(
            copy_one(data, pairs[0].0 as int, pairs[0].1 as int, bn),
            pairs.take(1).skip(1),
            bn,
        ) == copy_one(data, pairs[0].0 as int, pairs[0].1 as int, bn));
        assert(apply_pairs(data, pairs.take(1), bn) == copy_one(
            data,
            pairs[0].0 as int,
            pairs[0].1 as int,
            bn,
        ));
    } else {
        let c = copy_one(data, pairs[0].0 as int, pairs[0].1 as int, bn);
        lemma_apply_pairs_take(c, pairs.skip(1), j - 1, bn);
        assert(pairs.take(j + 1)[0] == pairs[0]);
        assert(pairs.take(j)[0] == pairs[0]);
        assert(pairs.take(j + 1).skip(1) =~= pairs.skip(1).take(j));
        assert(pairs.take(j).skip(1) =~= pairs.skip(1).take(j - 1));
        assert(pairs.skip(1)[j - 1] == pairs[j]);
        assert(apply_pairs(data, pairs.take(j + 1), bn) == apply_pairs(
            c,
            pairs.skip(1).take(j),
            bn,
        ));
        assert(apply_pairs(data, pairs.take(j), bn) == apply_pairs(
            c,
            pairs.skip(1).take(j - 1),
            bn,
        ));
        assert(apply_pairs(c, pairs.skip(1).take(j), bn) == copy_one(
            apply_pairs(c, pairs.skip(1).take(j - 1), bn),
            pairs[j].0 as int,
            pairs[j].1 as int,
            bn,
        ));
    }
}

/// Blocks are disjoint: an element of block `b2` lies in no other block.
proof fn lemma_block_disjoint(b1: int, b2: int, bn: int, e: int)
    by (nonlinear_arith)
    requires
        b1 != b2,
        bn >= 1,
        b2 * bn <= e < b2 * bn + bn,
    ensures
        !(b1 * bn <= e < b1 * bn + bn),
{
}

/// A block copy fills the destination block with the source block's
/// contents and leaves every other block unchanged.
proof fn lemma_copy_one_blocks(data: Seq<u64>, s: int, d: int, bn: int, nb: int)
    requires
        bn >= 1,
        data.len() == nb * bn,
        0 <= s < nb,
        0 <= d < nb,
    ensures
        block_at(copy_one(data, s, d, bn), d, bn) == block_at(data, s, bn),
        forall|b: int|
            0 <= b < nb && b != d ==> block_at(copy_one(data, s, d, bn), b, bn) == block_at(
                data,
                b,
                bn,
            ),
{
    let c = copy_one(data, s, d, bn);
    assert((d + 1) * bn <= nb * bn && (s + 1) * bn <= nb * bn && d * bn >= 0 && s * bn >= 0 && (d
        + 1) * bn == d * bn + bn && (s + 1) * bn == s * bn + bn) by (nonlinear_arith)
        requires
            0 <= s < nb,
            0 <= d < nb,
            bn >= 1,
    ;
    assert(block_at(c, d, bn) =~= block_at(data, s, bn));
    assert forall|b: int| 0 <= b < nb && b != d implies block_at(c, b, bn) == block_at(
        data,
        b,
        bn,
    ) by {
        assert((b + 1) * bn <= nb * bn && (b + 1) * bn == b * bn + bn && b * bn >= 0)
            by (nonlinear_arith)
            requires
                0 <= b < nb,
                bn >= 1,
        ;
        assert forall|k: int| 0 <= k < bn implies block_at(c, b, bn)[k] == block_at(
            data,
            b,
            bn,
        )[k] by {
            lemma_block_disjoint(d, b, bn, b * bn + k);
        }
        assert(block_at(c, b, bn) =~= block_at(data, b, bn));
    }
}

/// Batched copy-on-write fan-out: when no destination block is also a
/// source and no destination repeats, applying the pairs in order leaves
/// every destination block holding its source block's original contents,
/// and every other block unchanged.
pub proof fn lemma_copy_fanout(data: Seq<u64>, pairs: Seq<(usize, usize)>, bn: int, nb: int)
    requires
        bn >= 1,
        data.len() == nb * bn,
        pairs_in_range(pairs, nb),
        forall|i: int, j: int|
            0 <= i < pairs.len() && 0 <= j < pairs.len() ==> pairs[i].1 != pairs[j].0,
        forall|i: int, j: int| 0 <= i < j < pairs.len() ==> pairs[i].1 != pairs[j].1,
    ensures
        forall|i: int|
            0 <= i < pairs.len() ==> block_at(apply_pairs(data, pairs, bn), pairs[i].1 as int, bn)
                == block_at(data, pairs[i].0 as int, bn),
        forall|b: int|
            0 <= b < nb && (forall|i: int| 0 <= i < pairs.len() ==> (pairs[i].1 as int) != b)
                ==> block_at(apply_pairs(data, pairs, bn), b, bn) == block_at(data, b, bn),
    decreases pairs.len(),
{
    if pairs.len() > 0 {
        let p0 = pairs[0];
        let c = copy_one(data, p0.0 as int, p0.1 as int, bn);
        let rest = pairs.skip(1);
        assert(forall|i: int| 0 <= i < rest.len() ==> rest[i] == pairs[i + 1]);
        assert(c.len() == data.len());
        lemma_copy_one_blocks(data, p0.0 as int, p0.1 as int, bn, nb);
        lemma_copy_fanout(c, rest, bn, nb);
        assert(apply_pairs(data, pairs, bn) == apply_pairs(c, rest, bn));
        assert forall|i: int| 0 <= i < pairs.len() implies block_at(
            apply_pairs(data, pairs, bn),
            pairs[i].1 as int,
            bn,
        ) == block_at(data, pairs[i].0 as int, bn) by {
            if i == 0 {
                // No later pair writes over p0's destination.
                assert(forall|k: int|
                    0 <= k < rest.len() ==> (rest[k].1 as int) != p0.1 as int);
                assert(block_at(apply_pairs(c, rest, bn), p0.1 as int, bn) == block_at(
                    c,
                    p0.1 as int,
                    bn,
                ));
            } else {
                // The pair's source block was not p0's destination.
                assert(rest[i - 1] == pairs[i]);
                assert(block_at(apply_pairs(c, rest, bn), pairs[i].1 as int, bn) == block_at(
                    c,
                    pairs[i].0 as int,
                    bn,
                ));
                assert((pairs[i].0 as int) != p0.1 as int);
            }
        }
        assert forall|b: int|
            0 <= b < nb && (forall|i: int| 0 <= i < pairs.len() ==> (pairs[i].1 as int) != b)
                implies block_at(apply_pairs(data, pairs, bn), b, bn) == block_at(
            data,
            b,
            bn,
        ) by {
            assert((p0.1 as int) != b);
            assert(forall|k: int| 0 <= k < rest.len() ==> (rest[k].1 as int) != b);
            assert(block_at(apply_pairs(c, rest, bn), b, bn) == block_at(c, b, bn));
        }
    }
}

/// Fan-out through one block-mapping entry, as `copy_blocks` applies it:
/// after the copies of a mapping that sends one source block to several
/// fresh destination blocks, every destination block holds the source
/// block's original contents and every other block is unchanged.
pub proof fn lemma_copy_blocks_fanout(data: Seq<u64>, entry: (usize, Vec<usize>), bn: int, nb: int)
    requires
        bn >= 1,
        data.len() == nb * bn,
        (entry.0 as int) < nb,
        forall|j: int|
            0 <= j < entry.1@.len() ==> (entry.1@[j] as int) < nb && entry.1@[j] != entry.0,
        forall|i: int, j: int| 0 <= i < j < entry.1@.len() ==> entry.1@[i] != entry.1@[j],
    ensures
        forall|j: int|
            0 <= j < entry.1@.len() ==> block_at(
                apply_pairs(data, flat_pairs(seq![entry]), bn),
                entry.1@[j] as int,
                bn,
            ) == block_at(data, entry.0 as int, bn),
        forall|b: int|
            0 <= b < nb && (forall|j: int| 0 <= j < entry.1@.len() ==> (entry.1@[j] as int) != b)
                ==> block_at(apply_pairs(data, flat_pairs(seq![entry]), bn), b, bn) == block_at(
                data,
                b,
                bn,
            ),
{
    let pairs = flat_pairs(seq![entry]);
    assert(seq![entry][0] == entry);
    assert(seq![entry].skip(1) =~= Seq::<(usize, Vec<usize>)>::empty());
    assert(flat_pairs(Seq::<(usize, Vec<usize>)>::empty()) =~= Seq::<(usize, usize)>::empty());
    assert(pairs =~= entry_pairs(entry));
    assert(forall|i: int| 0 <= i < pairs.len() ==> pairs[i] == (entry.0, entry.1@[i]));
    lemma_copy_fanout(data, pairs, bn, nb);
    assert forall|j: int| 0 <= j < entry.1@.len() implies block_at(
        apply_pairs(data, pairs, bn),
        entry.1@[j] as int,
        bn,
    ) == block_at(data, entry.0 as int, bn) by {
        assert(pairs[j] == (entry.0, entry.1@[j]));
        assert(block_at(apply_pairs(data, pairs, bn), pairs[j].1 as int, bn) == block_at(
            data,
            pairs[j].0 as int,
            bn,
        ));
    }
    assert forall|b: int|
        0 <= b < nb && (forall|j: int| 0 <= j < entry.1@.len() ==> (entry.1@[j] as int) != b)
            implies block_at(apply_pairs(data, pairs, bn), b, bn) == block_at(data, b, bn) by {
        assert(forall|i: int| 0 <= i < pairs.len() ==> (pairs[i].1 as int) != b);
    }
}

/// The per-block element count of a block-structured cache tensor: the
/// product of every dimension after the leading block dimension.
pub fn block_numel(cache: &Tensor) -> (bn: usize)
    requires
        cache.wf(),
        cache.rank() >= 1,
        forall|i: int| 0 <= i < cache.rank() ==> cache.dim(i) >= 1,
    ensures
        bn == prod(cache.dims@.skip(1)),
        bn >= 1,
        cache.data@.len() == cache.dim(0) * bn,
{
    proof {
        crate::layout::lemma_prod_split_first(cache.dims@);
        assert forall|i: int| 0 <= i < cache.dims@.skip(1).len() implies cache.dims@.skip(1)[i]
            >= 1 by {
            assert(cache.dims@.skip(1)[i] == cache.dims@[i + 1]);
            assert(cache.dim(i + 1) >= 1);
        }
        crate::layout::lemma_prod_pos(cache.dims@.skip(1));
        let d0 = cache.dim(0);
        let bn0 = prod(cache.dims@.skip(1));
        assert(cache.data@.len() == bn0 * d0 + 0) by (nonlinear_arith)
            requires
                cache.data@.len() == d0 * bn0,
        ;
        lemma_fundamental_div_mod_converse(cache.data@.len() as int, d0, bn0, 0);
    }
    cache.data.len() / cache.dims[0]
}

/// Copies the contents of block `src` over block `dst` inside one cache
/// tensor; every element outside block `dst` is untouched.
#[verifier::loop_isolation(false)]
fn copy_block(cache: &mut Tensor, src: usize, dst: usize, bn: usize)
    requires
        old(cache).wf(),
        old(cache).rank() >= 1,
        bn >= 1,
        bn == prod(old(cache).dims@.skip(1)),
        old(cache).data@.len() == old(cache).dim(0) * bn,
        src < old(cache).dim(0),
        dst < old(cache).dim(0),
    ensures
        final(cache).same_meta(*old(cache)),
        final(cache).wf(),
        final(cache).data@ == copy_one(old(cache).data@, src as int, dst as int, bn as int),
{
    proof {
        let d0 = old(cache).dim(0);
        assert((src as int + 1) * bn <= d0 * bn && (src as int) * bn + bn == (src as int + 1) * bn
            && (dst as int + 1) * bn <= d0 * bn && (dst as int) * bn + bn == (dst as int + 1) * bn)
            by (nonlinear_arith)
            requires
                (src as int) < d0,
                (dst as int) < d0,
                bn >= 1,
        ;
    }
    let mut tmp: Vec<u64> = Vec::new();
    let mut k: usize = 0;
    while k < bn
        invariant
            k <= bn,
            tmp@.len() == k,
            forall|j: int| 0 <= j < k ==> tmp@[j] == cache.data@[src * bn + j],
        decreases bn - k,
    {
        tmp.push(cache.data[src * bn + k]);
        k = k + 1;
    }
    let ghost c0 = *cache;
    let mut k: usize = 0;
    while k < bn
        invariant
            k <= bn,
            cache.same_meta(c0),
            cache.data@.len() == c0.data@.len(),
            forall|e: int|
                0 <= e < c0.data@.len() ==> #[trigger] cache.data@[e] == (if (dst as int) * bn <= e
                    < (dst as int) * bn + k {
                    c0.data@[src * bn + (e - dst * bn)]
                } else {
                    c0.data@[e]
                }),
        decreases bn - k,
    {
        cache.data.set(dst * bn + k, tmp[k]);
        k = k + 1;
    }
    proof {
        assert(cache.data@ =~= copy_one(c0.data@, src as int, dst as int, bn as int));
    }
}

/// Applies a list of (source, destination) block copies, in order, to one
/// cache tensor.
#[verifier::loop_isolation(false)]
fn apply_pair_list(cache: &mut Tensor, pairs: &Vec<(usize, usize)>, bn: usize)
    requires
        old(cache).wf(),
        old(cache).rank() >= 1,
        bn >= 1,
        bn == prod(old(cache).dims@.skip(1)),
        old(cache).data@.len() == old(cache).dim(0) * bn,
        pairs_in_range(pairs@, old(cache).dim(0)),
    ensures
        final(cache).same_meta(*old(cache)),
        final(cache).wf(),
        final(cache).data@ == apply_pairs(old(cache).data@, pairs@, bn as int),
{
    proof {
        assert(pairs@.take(0) =~= Seq::<(usize, usize)>::empty());
    }
    let ghost c0 = *cache;
    let n = pairs.len();
    let mut j: usize = 0;
    while j < n
        invariant
            j <= n,
            cache.same_meta(c0),
            cache.wf(),
            cache.data@.len() == c0.data@.len(),
            cache.data@ == apply_pairs(c0.data@, pairs@.take(j as int), bn as int),
        decreases n - j,
    {
        let (s, d) = pairs[j];
        copy_block(cache, s, d, bn);
        proof {
            lemma_apply_pairs_take(c0.data@, pairs@, j as int, bn as int);
        }
        j = j + 1;
    }
    proof {
        assert(pairs@.take(n as int) =~= pairs@);
    }
}

/// Flattens a block mapping into its (source, destination) pairs, in
/// order.
#[verifier::loop_isolation(false)]
pub fn flatten_mapping(mapping: &Vec<(usize, Vec<usize>)>) -> (pairs: Vec<(usize, usize)>)
    ensures
        pairs@ == flat_pairs(mapping@),
{
    let mut pairs: Vec<(usize, usize)> = Vec::new();
    proof {
        assert(mapping@.take(0) =~= Seq::<(usize, Vec<usize>)>::empty());
    }
    let n = mapping.len();
    let mut i: usize = 0;
    while i < n
        invariant
            i <= n,
            pairs@ == flat_pairs(mapping@.take(i as int)),
        decreases n - i,
    {
        let src = mapping[i].0;
        let m = mapping[i].1.len();
        let ghost pairs_start = pairs@;
        let mut j: usize = 0;
        while j < m
            invariant
                i < n,
                j <= m,
                m == mapping@[i as int].1@.len(),
                src == mapping@[i as int].0,
                pairs@ == pairs_start + entry_pairs(mapping@[i as int]).take(j as int),
            decreases m - j,
        {
            let d = mapping[i].1[j];
            pairs.push((src, d));
            proof {
                assert(entry_pairs(mapping@[i as int]).take(j + 1) =~= entry_pairs(
                    mapping@[i as int],
                ).take(j as int).push((src, d)));
            }
            j = j + 1;
        }
        proof {
            assert(entry_pairs(mapping@[i as int]).take(m as int) =~= entry_pairs(
                mapping@[i as int],
            ));
            lemma_flat_pairs_take(mapping@, i as int);
        }
        i = i + 1;
    }
    proof {
        assert(mapping@.take(n as int) =~= mapping@);
    }
    pairs
}

/// The first violated precondition of `copy_blocks`, if any: the caches
/// must live on one accelerator device and share one dtype.
pub open spec fn copy_guard(kc0: Tensor, vc0: Tensor) -> Option<CacheError> {
    if !(kc0.device is Cuda) {
        Some(CacheError::NotCuda { role: TensorRole::KeyCaches, got: kc0.device })
    } else if vc0.device != kc0.device {
        Some(
            CacheError::DeviceMismatch {
                role: TensorRole::ValueCaches,
                expected: kc0.device,
                got: vc0.device,
            },
        )
    } else if kc0.dtype != vc0.dtype {
        Some(
            CacheError::DtypeMismatch {
                role: TensorRole::ValueCaches,
                expected: kc0.dtype,
                got: vc0.dtype,
            },
        )
    } else {
        None
    }
}

/// Layer coherence of one batched copy: one key/value cache pair per
/// layer, all sharing shape, dtype and device with their first layer, with
/// no degenerate dimension, equally many blocks of equally many elements
/// on both sides.
pub open spec fn copy_layers_ok(key_caches: Seq<Tensor>, value_caches: Seq<Tensor>) -> bool {
    &&& key_caches.len() == value_caches.len()
    &&& (forall|l: int|
        0 <= l < key_caches.len() ==> (#[trigger] key_caches[l]).wf() && key_caches[l].dims@
            == key_caches[0].dims@ && key_caches[l].dtype == key_caches[0].dtype
            && key_caches[l].device == key_caches[0].device)
    &&& (forall|l: int|
        0 <= l < value_caches.len() ==> (#[trigger] value_caches[l]).wf() && value_caches[l].dims@
            == value_caches[0].dims@ && value_caches[l].dtype == value_caches[0].dtype
            && value_caches[l].device == value_caches[0].device)
    &&& (key_caches.len() > 0 ==> key_caches[0].rank() >= 1 && value_caches[0].rank() >= 1 && (
    forall|i: int| 0 <= i < key_caches[0].rank() ==> key_caches[0].dim(i) >= 1) && (forall|i: int|
        0 <= i < value_caches[0].rank() ==> value_caches[0].dim(i) >= 1) && value_caches[0].dim(0)
        == key_caches[0].dim(0) && prod(value_caches[0].dims@.skip(1)) == prod(
        key_caches[0].dims@.skip(1),
    ))
}

/// The launch description of one batched block-copy dispatch.
pub open spec fn copy_plan_ok(
    p: CopyBlocksPlan,
    kc0: Tensor,
    mapping: Seq<(usize, Vec<usize>)>,
    num_layers: int,
) -> bool {
    let pairs = flat_pairs(mapping);
    let bn = prod(kc0.dims@.skip(1));
    let threads = if bn < MAX_COPY_BLOCK_THREADS {
        bn
    } else {
        MAX_COPY_BLOCK_THREADS as int
    };
    &&& p.num_layers == num_layers
    &&& p.num_pairs == pairs.len()
    &&& p.numel_per_block == bn
    &&& p.launch.grid_x == num_layers
    &&& p.launch.grid_y == pairs.len()
    &&& p.launch.grid_z == 1
    &&& p.launch.block_x == threads
    &&& p.launch.block_y == 1
    &&& p.launch.block_z == 1
    &&& p.launch.shared_mem_bytes == 0
    &&& p.kernel == (KernelKey {
        family: KernelFamily::CopyBlocks,
        variant: KernelVariant::Plain,
        dtype: kc0.dtype,
        device_ordinal: kc0.device.ordinal(),
    })
    &&& p.flat_mapping@.len() == 2 * pairs.len()
    &&& (forall|i: int|
        0 <= i < pairs.len() ==> p.flat_mapping@[2 * i] == pairs[i].0 as i64 && p.flat_mapping@[2
            * i + 1] == pairs[i].1 as i64)
}

/// Batched same-device block-to-block copy across all cache layers at
/// once, driven by a block-mapping table shared by every layer.
///
/// With no layers the call is a no-op success. Otherwise it validates the
/// device and dtype preconditions against the first layer and returns the
/// first violation without touching any cache. On success every layer's
/// key and value caches have the mapping's (source, destination) copies
/// applied in order, and the returned plan describes the single batched
/// kernel dispatch that performs all of them: one grid dimension per
/// layer, one per pair, and the flattened mapping array the kernel
/// receives.
#[verifier::loop_isolation(false)]
pub fn copy_blocks(
    key_caches: &mut Vec<Tensor>,
    value_caches: &mut Vec<Tensor>,
    block_mapping: &Vec<(usize, Vec<usize>)>,
) -> (r: Result<Option<CopyBlocksPlan>, CacheError>)
    requires
        copy_layers_ok(old(key_caches)@, old(value_caches)@),
        old(key_caches)@.len() > 0 ==> pairs_in_range(
            flat_pairs(block_mapping@),
            old(key_caches)@[0].dim(0),
        ),
        old(key_caches)@.len() <= u32::MAX,
        flat_pairs(block_mapping@).len() <= u32::MAX,
        old(key_caches)@.len() > 0 ==> prod(old(key_caches)@[0].dims@.skip(1)) <= u32::MAX,
        old(key_caches)@.len() > 0 ==> old(key_caches)@[0].dim(0) <= i64::MAX,
    ensures
        ({
            let kcs0 = old(key_caches)@;
            let vcs0 = old(value_caches)@;
            if kcs0.len() == 0 {
                r == Ok::<Option<CopyBlocksPlan>, CacheError>(None) && final(key_caches)@ == kcs0
                    && final(value_caches)@ == vcs0
            } else {
                match copy_guard(kcs0[0], vcs0[0]) {
                    Some(e) => r == Err::<Option<CopyBlocksPlan>, CacheError>(e)
                        && final(key_caches)@ == kcs0 && final(value_caches)@ == vcs0,
                    None => (r matches Ok(op) && op matches Some(p) && copy_plan_ok(
                        p,
                        kcs0[0],
                        block_mapping@,
                        kcs0.len() as int,
                    ) && final(key_caches)@.len() == kcs0.len() && final(value_caches)@.len()
                        == vcs0.len() && (forall|l: int|
                        0 <= l < kcs0.len() ==> final(key_caches)@[l].same_meta(kcs0[l])
                            && final(key_caches)@[l].data@ == apply_pairs(
                            kcs0[l].data@,
                            flat_pairs(block_mapping@),
                            prod(kcs0[0].dims@.skip(1)),
                        )) && (forall|l: int|
                        0 <= l < vcs0.len() ==> final(value_caches)@[l].same_meta(vcs0[l])
                            && final(value_caches)@[l].data@ == apply_pairs(
                            vcs0[l].data@,
                            flat_pairs(block_mapping@),
                            prod(vcs0[0].dims@.skip(1)),
                        ))),
                }
            }
        }),
{
    let num_layers = key_caches.len();
    if num_layers == 0 {
        return Ok(None);
    }
    let kc_device = key_caches[0].device;
    let vc_device = value_caches[0].device;
    let kc_dtype = key_caches[0].dtype;
    let vc_dtype = value_caches[0].dtype;
    if !kc_device.is_cuda() {
        return Err(CacheError::NotCuda { role: TensorRole::KeyCaches, got: kc_device });
    }
    if !vc_device.same_device(kc_device) {
        return Err(
            CacheError::DeviceMismatch {
                role: TensorRole::ValueCaches,
                expected: kc_device,
                got: vc_device,
            },
        );
    }
    if kc_dtype != vc_dtype {
        return Err(
            CacheError::DtypeMismatch {
                role: TensorRole::ValueCaches,
                expected: kc_dtype,
                got: vc_dtype,
            },
        );
    }
    let pairs = flatten_mapping(block_mapping);
    let num_pairs = pairs.len();
    let bn_key = block_numel(&key_caches[0]);
    let bn_value = block_numel(&value_caches[0]);
    let mut flat: Vec<i64> = Vec::new();
    let mut i: usize = 0;
    while i < num_pairs
        invariant
            i <= num_pairs,
            flat@.len() == 2 * i,
            forall|k: int|
                0 <= k < i ==> flat@[2 * k] == pairs@[k].0 as i64 && flat@[2 * k + 1]
                    == pairs@[k].1 as i64,
        decreases num_pairs - i,
    {
        let (s, d) = pairs[i];
        flat.push(s as i64);
        flat.push(d as i64);
        i = i + 1;
    }
    let threads: u32 = if bn_key < MAX_COPY_BLOCK_THREADS as usize {
        bn_key as u32
    } else {
        MAX_COPY_BLOCK_THREADS
    };
    let plan = CopyBlocksPlan {
        launch: LaunchConfig {
            grid_x: num_layers as u32,
            grid_y: num_pairs as u32,
            grid_z: 1,
            block_x: threads,
            block_y: 1,
            block_z: 1,
            shared_mem_bytes: 0,
        },
        kernel: KernelKey {
            family: KernelFamily::CopyBlocks,
            variant: KernelVariant::Plain,
            dtype: kc_dtype,
            device_ordinal: kc_device.ordinal_value(),
        },
        num_layers: num_layers as u32,
        num_pairs: num_pairs as u32,
        numel_per_block: bn_key as u32,
        flat_mapping: flat,
    };
    let ghost kcs0 = key_caches@;
    let ghost vcs0 = value_caches@;
    let mut l: usize = 0;
    while l < num_layers
        invariant
            l <= num_layers,
            key_caches@.len() == kcs0.len(),
            value_caches@.len() == vcs0.len(),
            forall|l2: int|
                l <= l2 < kcs0.len() ==> key_caches@[l2] == kcs0[l2] && value_caches@[l2]
                    == vcs0[l2],
            forall|l2: int|
                0 <= l2 < l ==> key_caches@[l2].same_meta(kcs0[l2]) && key_caches@[l2].data@
                    == apply_pairs(kcs0[l2].data@, pairs@, bn_key as int),
            forall|l2: int|
                0 <= l2 < l ==> value_caches@[l2].same_meta(vcs0[l2]) && value_caches@[l2].data@
                    == apply_pairs(vcs0[l2].data@, pairs@, bn_value as int),
        decreases num_layers - l,
    {
        let ghost kcs_at = key_caches@;
        let ghost vcs_at = value_caches@;
        proof {
            assert(key_caches@[l as int] == kcs0[l as int]);
            assert(value_caches@[l as int] == vcs0[l as int]);
        }
        let mut kc = key_caches.remove(l);
        proof {
            assert(kc == kcs0[l as int]);
            assert(kc.dims@ == kcs0[0].dims@);
            crate::layout::lemma_prod_split_first(kc.dims@);
        }
        apply_pair_list(&mut kc, &pairs, bn_key);
        key_caches.insert(l, kc);
        proof {
            assert(key_caches@ =~= kcs_at.update(l as int, kc));
        }
        let mut vc = value_caches.remove(l);
        proof {
            assert(vc == vcs0[l as int]);
            assert(vc.dims@ == vcs0[0].dims@);
            crate::layout::lemma_prod_split_first(vc.dims@);
        }
        apply_pair_list(&mut vc, &pairs, bn_value);
        value_caches.insert(l, vc);
        proof {
            assert(value_caches@ =~= vcs_at.update(l as int, vc));
        }
        l = l + 1;
    }
    Ok(Some(plan))
}

// ---------------------------------------------------------------------------
// swap_blocks: block copies between two cache tensors.
// ---------------------------------------------------------------------------

/// The copy path a block swap takes, or the first reason it is refused:
/// same-accelerator copies and host-to-device copies are supported;
/// device-to-host is a pending capability; distinct accelerators and
/// host-to-host are not supported.
pub open spec fn swap_guard(src: Tensor, dst: Tensor) -> Option<CacheError> {
    match (src.device, dst.device) {
        (Device::Cuda(a), Device::Cuda(b)) => if a != b {
            Some(CacheError::CudaOrdinalMismatch { src: a, dst: b })
        } else {
            None
        },
        (Device::Cpu, Device::Cuda(_)) => None,
        (Device::Cuda(_), Device::Cpu) => Some(CacheError::SwapToHostUnimplemented),
        (Device::Cpu, Device::Cpu) => Some(
            CacheError::UnsupportedSwapDevices { src: src.device, dst: dst.device },
        ),
    }
}

/// Shape coherence of one swap: both tensors are block-structured with no
/// degenerate dimension, share one dtype and one per-block element count,
/// and their total byte sizes fit the address space.
pub open spec fn swap_shapes_ok(src: Tensor, dst: Tensor) -> bool {
    &&& src.wf()
    &&& dst.wf()
    &&& src.rank() >= 1
    &&& dst.rank() >= 1
    &&& (forall|i: int| 0 <= i < src.rank() ==> src.dim(i) >= 1)
    &&& (forall|i: int| 0 <= i < dst.rank() ==> dst.dim(i) >= 1)
    &&& src.dtype == dst.dtype
    &&& prod(src.dims@.skip(1)) == prod(dst.dims@.skip(1))
    &&& src.dtype.size() * prod(src.dims@) <= usize::MAX
    &&& dst.dtype.size() * prod(dst.dims@) <= usize::MAX
}

/// A one-to-one block mapping for a swap: every source and destination
/// names a block of its tensor, and no destination repeats.
pub open spec fn swap_mapping_ok(pairs: Seq<(usize, usize)>, src: Tensor, dst: Tensor) -> bool {
    &&& (forall|i: int|
        0 <= i < pairs.len() ==> (pairs[i].0 as int) < src.dim(0) && (pairs[i].1 as int) < dst.dim(
            0,
        ))
    &&& (forall|i: int, j: int| 0 <= i < j < pairs.len() ==> pairs[i].1 != pairs[j].1)
}

/// The destination after a swap: every mapped destination block holds its
/// source block, every other block is unchanged.
pub open spec fn swap_post(
    src: Tensor,
    dst0: Tensor,
    dst1: Tensor,
    pairs: Seq<(usize, usize)>,
) -> bool {
    let bn = prod(src.dims@.skip(1));
    &&& dst1.same_meta(dst0)
    &&& dst1.data@.len() == dst0.data@.len()
    &&& (forall|i: int|
        0 <= i < pairs.len() ==> block_at(dst1.data@, pairs[i].1 as int, bn) == block_at(
            src.data@,
            pairs[i].0 as int,
            bn,
        ))
    &&& (forall|b: int|
        0 <= b < dst0.dim(0) && (forall|i: int|
            0 <= i < pairs.len() ==> (pairs[i].1 as int) != b) ==> block_at(dst1.data@, b, bn)
            == block_at(dst0.data@, b, bn))
}

/// The byte-copy description of one swap: per pair, source and destination
/// byte offsets that are the block index times the block byte size.
pub open spec fn swap_plan_ok(p: SwapPlan, src: Tensor, pairs: Seq<(usize, usize)>) -> bool {
    let bn = prod(src.dims@.skip(1));
    let bsb = src.dtype.size() * bn;
    &&& p.kind == (if src.device is Cuda {
        SwapKind::DeviceToDevice
    } else {
        SwapKind::HostToDevice
    })
    &&& p.block_size_in_bytes == bsb
    &&& p.copies@.len() == pairs.len()
    &&& (forall|i: int|
        0 <= i < pairs.len() ==> p.copies@[i].0 == pairs[i].0 * bsb && p.copies@[i].1 == pairs[i].1
            * bsb)
}

/// Block-granularity copy between two cache tensors that may live on
/// different devices.
///
/// Same-accelerator copies and host-to-device copies move, for each
/// mapping pair, exactly one block's bytes from the source block to the
/// destination block; the returned plan carries the byte offsets of each
/// copy. A device-to-host swap is a pending capability and is refused as
/// such; any other device combination is refused as unsupported. Neither
/// block count nor shape changes; only block contents move.
#[verifier::loop_isolation(false)]
pub fn swap_blocks(
    src: &Tensor,
    dst: &mut Tensor,
    block_mapping: &Vec<(usize, usize)>,
) -> (r: Result<SwapPlan, CacheError>)
    requires
        swap_shapes_ok(*src, *old(dst)),
        swap_mapping_ok(block_mapping@, *src, *old(dst)),
    ensures
        match swap_guard(*src, *old(dst)) {
            Some(e) => r == Err::<SwapPlan, CacheError>(e) && *final(dst) == *old(dst),
            None => (r matches Ok(p) && swap_plan_ok(p, *src, block_mapping@) && swap_post(
                *src,
                *old(dst),
                *final(dst),
                block_mapping@,
            )),
        },
{
    match (src.device, dst.device) {
        (Device::Cuda(a), Device::Cuda(b)) => {
            if a != b {
                return Err(CacheError::CudaOrdinalMismatch { src: a, dst: b });
            }
        },
        (Device::Cpu, Device::Cuda(_)) => {},
        (Device::Cuda(_), Device::Cpu) => {
            return Err(CacheError::SwapToHostUnimplemented);
        },
        (Device::Cpu, Device::Cpu) => {
            return Err(
                CacheError::UnsupportedSwapDevices { src: src.device, dst: dst.device },
            );
        },
    }
    let bn = block_numel(src);
    let ghost dst_bn = prod(old(dst).dims@.skip(1));
    proof {
        crate::layout::lemma_prod_split_first(dst.dims@);
        assert(dst_bn == bn as int);
    }
    let kind = if src.device.is_cuda() {
        SwapKind::DeviceToDevice
    } else {
        SwapKind::HostToDevice
    };
    let elem = src.dtype.size_in_bytes();
    proof {
        let nbs = src.dim(0);
        let nbd = dst.dim(0);
        assert((elem as int) * (bn as int) <= (elem as int) * (nbs * bn) && (elem as int) * (nbs
            * bn) == nbs * ((elem as int) * bn) && (elem as int) * (nbd * dst_bn) == nbd * ((
        elem as int) * dst_bn)) by (nonlinear_arith)
            requires
                nbs >= 1,
                nbd >= 1,
                bn >= 1,
                dst_bn >= 1,
                elem >= 0,
        ;
    }
    let bsb = elem * bn;
    proof {
        assert(src.dim(0) * (bsb as int) == (elem as int) * (src.dim(0) * bn)) by (nonlinear_arith)
            requires
                bsb == (elem as int) * (bn as int),
        ;
        assert(dst.dim(0) * (bsb as int) == (elem as int) * (dst.dim(0) * dst_bn))
            by (nonlinear_arith)
            requires
                bsb == (elem as int) * (dst_bn as int),
        ;
    }
    let ghost dst0 = *dst;
    let mut copies: Vec<(usize, usize)> = Vec::new();
    let n = block_mapping.len();
    let mut j: usize = 0;
    while j < n
        invariant
            j <= n,
            dst.same_meta(dst0),
            dst.data@.len() == dst0.data@.len(),
            copies@.len() == j,
            forall|i: int|
                0 <= i < j ==> copies@[i].0 == block_mapping@[i].0 * (bsb as int) && copies@[i].1
                    == block_mapping@[i].1 * (bsb as int),
            forall|i: int|
                0 <= i < j ==> block_at(dst.data@, block_mapping@[i].1 as int, bn as int)
                    == block_at(src.data@, block_mapping@[i].0 as int, bn as int),
            forall|e: int|
                0 <= e < dst0.data@.len() && (forall|i: int|
                    0 <= i < j ==> !(((#[trigger] block_mapping@[i]).1 as int) * bn <= e < ((
                    block_mapping@[i]).1 as int) * bn + bn)) ==> dst.data@[e] == dst0.data@[e],
        decreases n - j,
    {
        let (s, d) = block_mapping[j];
        proof {
            let nbs = src.dim(0);
            let nbd = dst.dim(0);
            assert((s as int + 1) * bn <= nbs * bn && (s as int) * bn + bn == (s as int + 1) * bn
                && (d as int + 1) * bn <= nbd * bn && (d as int) * bn + bn == (d as int + 1) * bn
                && (s as int) * (bsb as int) <= nbs * (bsb as int) && (d as int) * (bsb as int)
                <= nbd * (bsb as int)) by (nonlinear_arith)
                requires
                    (s as int) < nbs,
                    (d as int) < nbd,
                    bn >= 1,
                    bsb >= 0,
            ;
        }
        copies.push((s * bsb, d * bsb));
        let ghost dst_at = *dst;
        let mut k: usize = 0;
        while k < bn
            invariant
                j < n,
                k <= bn,
                s == block_mapping@[j as int].0,
                d == block_mapping@[j as int].1,
                dst.same_meta(dst_at),
                dst.data@.len() == dst_at.data@.len(),
                forall|e: int|
                    0 <= e < dst_at.data@.len() ==> #[trigger] dst.data@[e] == (if (d as int) * bn
                        <= e < (d as int) * bn + k {
                        src.data@[s * bn + (e - d * bn)]
                    } else {
                        dst_at.data@[e]
                    }),
            decreases bn - k,
        {
            let v = src.data[s * bn + k];
            dst.data.set(d * bn + k, v);
            k = k + 1;
        }
        proof {
            assert(block_at(dst.data@, d as int, bn as int) =~= block_at(
                src.data@,
                s as int,
                bn as int,
            ));
            assert forall|i: int| 0 <= i < j implies block_at(
                dst.data@,
                block_mapping@[i].1 as int,
                bn as int,
            ) == block_at(src.data@, block_mapping@[i].0 as int, bn as int) by {
                let d2 = block_mapping@[i].1 as int;
                assert(d2 != d as int);
                assert((d2 + 1) * bn == d2 * bn + bn && (d2 + 1) * bn <= dst.dim(0) * bn && d2 * bn
                    >= 0) by (nonlinear_arith)
                    requires
                        0 <= d2 < dst.dim(0),
                        bn >= 1,
                ;
                assert forall|e: int| d2 * bn <= e < d2 * bn + bn implies #[trigger] dst.data@[e]
                    == dst_at.data@[e] by {
                    lemma_block_disjoint(d as int, d2, bn as int, e);
                }
                assert(block_at(dst.data@, d2, bn as int) =~= block_at(
                    dst_at.data@,
                    d2,
                    bn as int,
                ));
            }
        }
        j = j + 1;
    }
    let plan = SwapPlan { kind, block_size_in_bytes: bsb, copies };
    proof {
        assert forall|b: int|
            0 <= b < dst0.dim(0) && (forall|i: int|
                0 <= i < block_mapping@.len() ==> (block_mapping@[i].1 as int) != b) implies
            block_at(dst.data@, b, dst_bn) == block_at(dst0.data@, b, dst_bn) by {
            assert((b + 1) * dst_bn == b * dst_bn + dst_bn && (b + 1) * dst_bn <= dst0.dim(0)
                * dst_bn && b * dst_bn >= 0) by (nonlinear_arith)
                requires
                    0 <= b < dst0.dim(0),
                    dst_bn >= 1,
            ;
            assert forall|e: int| b * dst_bn <= e < b * dst_bn + dst_bn implies dst.data@[e]
                == dst0.data@[e] by {
                assert forall|i: int| 0 <= i < block_mapping@.len() implies !(((
                #[trigger] block_mapping@[i]).1 as int) * dst_bn <= e < ((block_mapping@[i]).1
                    as int) * dst_bn + dst_bn) by {
                    lemma_block_disjoint(block_mapping@[i].1 as int, b, dst_bn, e);
                }
            }
            assert(block_at(dst.data@, b, dst_bn) =~= block_at(dst0.data@, b, dst_bn));
        }
    }
    Ok(plan)
}

/// The reversed block mapping: every (source, destination) pair turned
/// around.
pub open spec fn reversed_pairs(pairs: Seq<(usize, usize)>) -> Seq<(usize, usize)> {
    Seq::new(pairs.len(), |i: int| (pairs[i].1, pairs[i].0))
}

/// Swap round trip over the engine's contract: after `swap_blocks` moves
/// blocks of `src0` into `dst0` (yielding `dst1`), and `swap_blocks` with
/// the reversed mapping moves them from `dst1` back into `src0` (yielding
/// `src1`), the source tensor's contents are restored exactly, for any
/// one-to-one mapping.
pub proof fn lemma_swap_blocks_round_trip(
    src0: Tensor,
    dst0: Tensor,
    dst1: Tensor,
    src1: Tensor,
    pairs: Seq<(usize, usize)>,
)
    requires
        swap_shapes_ok(src0, dst0),
        swap_mapping_ok(pairs, src0, dst0),
        forall|i: int, j: int| 0 <= i < j < pairs.len() ==> pairs[i].0 != pairs[j].0,
        swap_post(src0, dst0, dst1, pairs),
        swap_post(dst1, src0, src1, reversed_pairs(pairs)),
    ensures
        src1.data@ == src0.data@,
{
    let bn = prod(src0.dims@.skip(1));
    let rev = reversed_pairs(pairs);
    crate::layout::lemma_prod_split_first(src0.dims@);
    crate::layout::lemma_prod_split_first(dst0.dims@);
    assert forall|i: int| 0 <= i < src0.dims@.skip(1).len() implies src0.dims@.skip(1)[i]
        >= 1 by {
        assert(src0.dims@.skip(1)[i] == src0.dims@[i + 1]);
        assert(src0.dim(i + 1) >= 1);
    }
    crate::layout::lemma_prod_pos(src0.dims@.skip(1));
    assert(prod(dst1.dims@.skip(1)) == bn);
    assert forall|i: int| 0 <= i < pairs.len() implies block_at(src1.data@, pairs[i].0 as int, bn)
        == block_at(dst1.data@, pairs[i].1 as int, bn) by {
        assert(rev[i] == (pairs[i].1, pairs[i].0));
    }
    assert forall|b: int|
        0 <= b < src0.dim(0) && (forall|i: int|
            0 <= i < pairs.len() ==> (pairs[i].0 as int) != b) implies block_at(src1.data@, b, bn)
        == block_at(src0.data@, b, bn) by {
        assert(forall|i: int| 0 <= i < rev.len() ==> (rev[i].1 as int) != b);
    }
    lemma_swap_round_trip(
        src0.data@,
        dst0.data@,
        dst1.data@,
        src1.data@,
        pairs,
        bn,
        src0.dim(0),
        dst0.dim(0),
    );
}

/// Swap round trip: copying blocks src_i to dst_i into another tensor and
/// then copying them back under the reversed mapping restores the first
/// tensor's contents exactly, for any one-to-one mapping.
pub proof fn lemma_swap_round_trip(
    src0: Seq<u64>,
    dst0: Seq<u64>,
    dst1: Seq<u64>,
    src1: Seq<u64>,
    pairs: Seq<(usize, usize)>,
    bn: int,
    nb_src: int,
    nb_dst: int,
)
    requires
        bn >= 1,
        src0.len() == nb_src * bn,
        dst0.len() == nb_dst * bn,
        dst1.len() == dst0.len(),
        src1.len() == src0.len(),
        forall|i: int|
            0 <= i < pairs.len() ==> (pairs[i].0 as int) < nb_src && (pairs[i].1 as int) < nb_dst,
        forall|i: int, j: int| 0 <= i < j < pairs.len() ==> pairs[i].1 != pairs[j].1,
        forall|i: int, j: int| 0 <= i < j < pairs.len() ==> pairs[i].0 != pairs[j].0,
        // dst1 arose from swapping the pairs of src0 into dst0:
        forall|i: int|
            0 <= i < pairs.len() ==> block_at(dst1, pairs[i].1 as int, bn) == block_at(
                src0,
                pairs[i].0 as int,
                bn,
            ),
        // src1 arose from swapping the reversed pairs of dst1 into src0:
        forall|i: int|
            0 <= i < pairs.len() ==> block_at(src1, pairs[i].0 as int, bn) == block_at(
                dst1,
                pairs[i].1 as int,
                bn,
            ),
        forall|b: int|
            0 <= b < nb_src && (forall|i: int| 0 <= i < pairs.len() ==> (pairs[i].0 as int) != b)
                ==> block_at(src1, b, bn) == block_at(src0, b, bn),
    ensures
        src1 == src0,
{
    assert forall|b: int| 0 <= b < nb_src implies block_at(src1, b, bn) == block_at(
        src0,
        b,
        bn,
    ) by {
        if exists|i: int| 0 <= i < pairs.len() && (pairs[i].0 as int) == b {
            let i = choose|i: int| 0 <= i < pairs.len() && (pairs[i].0 as int) == b;
            assert(block_at(src1, b, bn) == block_at(dst1, pairs[i].1 as int, bn));
        }
    }
    assert forall|e: int| 0 <= e < src1.len() implies src1[e] == src0[e] by {
        let b = e / bn;
        lemma_mod_bound(e, bn);
        assert(e < bn * nb_src) by (nonlinear_arith)
            requires
                e < nb_src * bn,
        ;
        lemma_multiply_divide_lt(e, bn, nb_src);
        vstd::arithmetic::div_mod::lemma_div_pos_is_pos(e, bn);
        lemma_fundamental_div_mod(e, bn);
        assert(b * bn + e % bn == e) by (nonlinear_arith)
            requires
                e == bn * (e / bn) + e % bn,
                b == e / bn,
        ;
        assert((b + 1) * bn == b * bn + bn && (b + 1) * bn <= nb_src * bn) by (nonlinear_arith)
            requires
                0 <= b < nb_src,
                bn >= 1,
        ;
        assert(block_at(src1, b, bn)[e % bn] == src1[e]);
        assert(block_at(src0, b, bn)[e % bn] == src0[e]);
    }
    assert(src1 =~= src0);
}

} // verus!
