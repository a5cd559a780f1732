use paged_kv_cache::cache::{
    copy_blocks, key_cache_entry, reshape_and_cache, swap_blocks, value_cache_entry,
};
use paged_kv_cache::error::CacheError;
use paged_kv_cache::plan::SwapKind;
use paged_kv_cache::tensor::{Device, Dtype, Tensor, TensorRole};

fn tensor(dims: Vec<usize>, dtype: Dtype, device: Device, data: Vec<u64>) -> Tensor {
    Tensor { dims, dtype, device, data }
}

fn gpu() -> Device {
    Device::Cuda(0)
}

// [num_tokens=2, num_heads=1, head_size=2] inputs.
fn kv_input(data: Vec<u64>) -> Tensor {
    tensor(vec![2, 1, 2], Dtype::Float16, gpu(), data)
}

// [num_blocks=2, num_heads=1, head_size/x=1, block_size=2, x=2] key cache.
fn key_cache() -> Tensor {
    tensor(vec![2, 1, 1, 2, 2], Dtype::Float16, gpu(), vec![0; 8])
}

// [num_blocks=2, num_heads=1, head_size=2, block_size=2] value cache.
fn value_cache() -> Tensor {
    tensor(vec![2, 1, 2, 2], Dtype::Float16, gpu(), vec![0; 8])
}

fn slot_mapping(slots: Vec<u64>) -> Tensor {
    tensor(vec![slots.len()], Dtype::Int64, gpu(), slots)
}

#[test]
fn scatter_writes_every_token_at_its_slot() {
    let key = kv_input(vec![1, 2, 3, 4]);
    let value = kv_input(vec![5, 6, 7, 8]);
    let mut kc = key_cache();
    let mut vc = value_cache();
    let slots = slot_mapping(vec![3, 0]);
    let plan = reshape_and_cache(&key, &value, &mut kc, &mut vc, &slots).unwrap();
    // Token 0 went to slot 3, token 1 to slot 0; read back both rows.
    assert_eq!(key_cache_entry(&kc, 3, 0, 0), 1);
    assert_eq!(key_cache_entry(&kc, 3, 0, 1), 2);
    assert_eq!(key_cache_entry(&kc, 0, 0, 0), 3);
    assert_eq!(key_cache_entry(&kc, 0, 0, 1), 4);
    assert_eq!(value_cache_entry(&vc, 3, 0, 0), 5);
    assert_eq!(value_cache_entry(&vc, 3, 0, 1), 6);
    assert_eq!(value_cache_entry(&vc, 0, 0, 0), 7);
    assert_eq!(value_cache_entry(&vc, 0, 0, 1), 8);
    // Slots no token was assigned to are untouched.
    assert_eq!(key_cache_entry(&kc, 1, 0, 0), 0);
    assert_eq!(key_cache_entry(&kc, 2, 0, 1), 0);
    assert_eq!(value_cache_entry(&vc, 1, 0, 0), 0);
    assert_eq!(value_cache_entry(&vc, 2, 0, 1), 0);
    // Launch description: one work-group per token.
    assert_eq!(plan.launch.grid_x, 2);
    assert_eq!(plan.launch.block_x, 2);
    assert_eq!(plan.key_stride, 2);
    assert_eq!(plan.block_size, 2);
    assert_eq!(plan.x, 2);
}

#[test]
fn scatter_rejects_slot_mapping_dtype() {
    let key = kv_input(vec![1, 2, 3, 4]);
    let value = kv_input(vec![5, 6, 7, 8]);
    let mut kc = key_cache();
    let mut vc = value_cache();
    let before = kc.clone();
    let mut slots = slot_mapping(vec![3, 0]);
    slots.dtype = Dtype::Uint32;
    let r = reshape_and_cache(&key, &value, &mut kc, &mut vc, &slots);
    assert_eq!(r.unwrap_err(), CacheError::SlotMappingDtype { got: Dtype::Uint32 });
    assert_eq!(kc, before);
}

#[test]
fn scatter_rejects_dtype_mismatches() {
    let key = kv_input(vec![1, 2, 3, 4]);
    let mut value = kv_input(vec![5, 6, 7, 8]);
    let mut kc = key_cache();
    let mut vc = value_cache();
    let slots = slot_mapping(vec![3, 0]);
    value.dtype = Dtype::Float32;
    let r = reshape_and_cache(&key, &value, &mut kc, &mut vc, &slots);
    assert_eq!(
        r.unwrap_err(),
        CacheError::DtypeMismatch {
            role: TensorRole::Value,
            expected: Dtype::Float16,
            got: Dtype::Float32,
        }
    );
    let value = kv_input(vec![5, 6, 7, 8]);
    kc.dtype = Dtype::BFloat16;
    let r = reshape_and_cache(&key, &value, &mut kc, &mut vc, &slots);
    assert_eq!(
        r.unwrap_err(),
        CacheError::DtypeMismatch {
            role: TensorRole::KeyCache,
            expected: Dtype::Float16,
            got: Dtype::BFloat16,
        }
    );
    kc.dtype = Dtype::Float16;
    vc.dtype = Dtype::Float64;
    let r = reshape_and_cache(&key, &value, &mut kc, &mut vc, &slots);
    assert_eq!(
        r.unwrap_err(),
        CacheError::DtypeMismatch {
            role: TensorRole::ValueCache,
            expected: Dtype::Float16,
            got: Dtype::Float64,
        }
    );
}

#[test]
fn scatter_rejects_device_mismatches() {
    let mut key = kv_input(vec![1, 2, 3, 4]);
    let value = kv_input(vec![5, 6, 7, 8]);
    let mut kc = key_cache();
    let mut vc = value_cache();
    let slots = slot_mapping(vec![3, 0]);
    key.device = Device::Cpu;
    // With every tensor's device equal, the host placement is caught by the
    // accelerator-residency check first.
    let mut value_cpu = value.clone();
    value_cpu.device = Device::Cpu;
    let mut kc_cpu = kc.clone();
    kc_cpu.device = Device::Cpu;
    let mut vc_cpu = vc.clone();
    vc_cpu.device = Device::Cpu;
    let mut slots_cpu = slots.clone();
    slots_cpu.device = Device::Cpu;
    let r = reshape_and_cache(&key, &value_cpu, &mut kc_cpu, &mut vc_cpu, &slots_cpu);
    assert_eq!(
        r.unwrap_err(),
        CacheError::NotCuda { role: TensorRole::Key, got: Device::Cpu }
    );
    // A value tensor on another accelerator is a device mismatch.
    let key = kv_input(vec![1, 2, 3, 4]);
    let mut value_other = value.clone();
    value_other.device = Device::Cuda(1);
    let r = reshape_and_cache(&key, &value_other, &mut kc, &mut vc, &slots);
    assert_eq!(
        r.unwrap_err(),
        CacheError::DeviceMismatch {
            role: TensorRole::Value,
            expected: Device::Cuda(0),
            got: Device::Cuda(1),
        }
    );
    let value = kv_input(vec![5, 6, 7, 8]);
    kc.device = Device::Cuda(1);
    let r = reshape_and_cache(&key, &value, &mut kc, &mut vc, &slots);
    assert_eq!(
        r.unwrap_err(),
        CacheError::DeviceMismatch {
            role: TensorRole::KeyCache,
            expected: Device::Cuda(0),
            got: Device::Cuda(1),
        }
    );
    kc.device = Device::Cuda(0);
    vc.device = Device::Cuda(1);
    let r = reshape_and_cache(&key, &value, &mut kc, &mut vc, &slots);
    assert_eq!(
        r.unwrap_err(),
        CacheError::DeviceMismatch {
            role: TensorRole::ValueCache,
            expected: Device::Cuda(0),
            got: Device::Cuda(1),
        }
    );
    vc.device = Device::Cuda(0);
    let mut slots_other = slots.clone();
    slots_other.device = Device::Cuda(1);
    let r = reshape_and_cache(&key, &value, &mut kc, &mut vc, &slots_other);
    assert_eq!(
        r.unwrap_err(),
        CacheError::DeviceMismatch {
            role: TensorRole::SlotMapping,
            expected: Device::Cuda(0),
            got: Device::Cuda(1),
        }
    );
}

// One cache layer for the batched copy: [num_blocks=4, 1, 1, 2, 2] keys,
// [4, 1, 2, 2] values, block element count 4, with block b holding
// base + 10 * b + k at element k.
fn copy_key_layer(base: u64) -> Tensor {
    let data: Vec<u64> = (0..16).map(|e| base + 10 * (e / 4) + (e % 4)).collect();
    tensor(vec![4, 1, 1, 2, 2], Dtype::Float16, gpu(), data)
}

fn copy_value_layer(base: u64) -> Tensor {
    let data: Vec<u64> = (0..16).map(|e| base + 10 * (e / 4) + (e % 4)).collect();
    tensor(vec![4, 1, 2, 2], Dtype::Float16, gpu(), data)
}

fn block(t: &Tensor, b: usize) -> Vec<u64> {
    t.data[b * 4..(b + 1) * 4].to_vec()
}

#[test]
fn copy_blocks_fans_out_one_block_across_layers() {
    let mut kcs = vec![copy_key_layer(100), copy_key_layer(200)];
    let mut vcs = vec![copy_value_layer(300), copy_value_layer(400)];
    let mapping = vec![(0usize, vec![1usize, 2usize])];
    let plan = copy_blocks(&mut kcs, &mut vcs, &mapping).unwrap().unwrap();
    for (caches, base) in [(&kcs, [100u64, 200]), (&vcs, [300, 400])] {
        for (l, b0) in base.iter().enumerate() {
            let original_block0: Vec<u64> = (0..4).map(|k| b0 + k).collect();
            assert_eq!(block(&caches[l], 0), original_block0);
            assert_eq!(block(&caches[l], 1), original_block0);
            assert_eq!(block(&caches[l], 2), original_block0);
            // A block the mapping never names is unchanged.
            let block3: Vec<u64> = (0..4).map(|k| b0 + 30 + k).collect();
            assert_eq!(block(&caches[l], 3), block3);
        }
    }
    // One batched launch: a grid dimension per layer and per pair.
    assert_eq!(plan.num_layers, 2);
    assert_eq!(plan.num_pairs, 2);
    assert_eq!(plan.numel_per_block, 4);
    assert_eq!(plan.launch.grid_x, 2);
    assert_eq!(plan.launch.grid_y, 2);
    assert_eq!(plan.launch.block_x, 4);
    assert_eq!(plan.flat_mapping, vec![0, 1, 0, 2]);
}

#[test]
fn copy_blocks_with_no_layers_is_a_no_op_success() {
    let mut kcs: Vec<Tensor> = Vec::new();
    let mut vcs: Vec<Tensor> = Vec::new();
    let mapping = vec![(0usize, vec![1usize])];
    let r = copy_blocks(&mut kcs, &mut vcs, &mapping);
    assert_eq!(r.unwrap(), None);
    assert!(kcs.is_empty());
    assert!(vcs.is_empty());
}

#[test]
fn copy_blocks_rejects_device_and_dtype_mismatches() {
    let mut kcs = vec![copy_key_layer(0)];
    let mut vcs = vec![copy_value_layer(0)];
    kcs[0].device = Device::Cpu;
    vcs[0].device = Device::Cpu;
    let mapping = vec![(0usize, vec![1usize])];
    let r = copy_blocks(&mut kcs, &mut vcs, &mapping);
    assert_eq!(
        r.unwrap_err(),
        CacheError::NotCuda { role: TensorRole::KeyCaches, got: Device::Cpu }
    );
    let mut kcs = vec![copy_key_layer(0)];
    let mut vcs = vec![copy_value_layer(0)];
    vcs[0].device = Device::Cuda(1);
    let r = copy_blocks(&mut kcs, &mut vcs, &mapping);
    assert_eq!(
        r.unwrap_err(),
        CacheError::DeviceMismatch {
            role: TensorRole::ValueCaches,
            expected: Device::Cuda(0),
            got: Device::Cuda(1),
        }
    );
    let mut kcs = vec![copy_key_layer(0)];
    let mut vcs = vec![copy_value_layer(0)];
    vcs[0].dtype = Dtype::Float32;
    let r = copy_blocks(&mut kcs, &mut vcs, &mapping);
    assert_eq!(
        r.unwrap_err(),
        CacheError::DtypeMismatch {
            role: TensorRole::ValueCaches,
            expected: Dtype::Float16,
            got: Dtype::Float32,
        }
    );
}

// [num_blocks=3, 4] cache tensors for swapping, block element count 4.
fn swap_tensor(device: Device, base: u64) -> Tensor {
    let data: Vec<u64> = (0..12).map(|e| base + e).collect();
    tensor(vec![3, 4], Dtype::Float16, device, data)
}

#[test]
fn swap_blocks_moves_blocks_between_tensors() {
    let src = swap_tensor(gpu(), 0);
    let mut dst = swap_tensor(gpu(), 100);
    let mapping = vec![(0usize, 2usize), (1usize, 0usize)];
    let plan = swap_blocks(&src, &mut dst, &mapping).unwrap();
    assert_eq!(plan.kind, SwapKind::DeviceToDevice);
    // Two bytes per Float16 element, four elements per block.
    assert_eq!(plan.block_size_in_bytes, 8);
    assert_eq!(plan.copies, vec![(0, 16), (8, 0)]);
    assert_eq!(&dst.data[8..12], &[0, 1, 2, 3]);
    assert_eq!(&dst.data[0..4], &[4, 5, 6, 7]);
    // The unmapped destination block is unchanged.
    assert_eq!(&dst.data[4..8], &[104, 105, 106, 107]);
    // The source is only read.
    assert_eq!(src.data, (0..12).collect::<Vec<u64>>());
}

#[test]
fn swap_blocks_round_trip_restores_content() {
    for src_device in [gpu(), Device::Cpu] {
        let src = swap_tensor(src_device, 0);
        let mut dst = swap_tensor(gpu(), 100);
        let mapping = vec![(0usize, 2usize), (1usize, 0usize)];
        let kind = swap_blocks(&src, &mut dst, &mapping).unwrap().kind;
        if src_device == Device::Cpu {
            assert_eq!(kind, SwapKind::HostToDevice);
        }
        // Swap back under the reversed mapping, into a copy of the source.
        let mut restored = src.clone();
        restored.device = gpu();
        let dst_back = {
            let mut d = dst.clone();
            d.device = src_device;
            d
        };
        let reversed = vec![(2usize, 0usize), (0usize, 1usize)];
        swap_blocks(&dst_back, &mut restored, &reversed).unwrap();
        assert_eq!(restored.data, src.data);
    }
}

#[test]
fn swap_blocks_rejects_unsupported_device_combinations() {
    let mapping = vec![(0usize, 1usize)];
    let src = swap_tensor(Device::Cuda(0), 0);
    let mut dst = swap_tensor(Device::Cuda(1), 100);
    let r = swap_blocks(&src, &mut dst, &mapping);
    assert_eq!(r.unwrap_err(), CacheError::CudaOrdinalMismatch { src: 0, dst: 1 });
    let src = swap_tensor(gpu(), 0);
    let mut dst = swap_tensor(Device::Cpu, 100);
    let before = dst.clone();
    let r = swap_blocks(&src, &mut dst, &mapping);
    assert_eq!(r.unwrap_err(), CacheError::SwapToHostUnimplemented);
    assert_eq!(dst, before);
    let src = swap_tensor(Device::Cpu, 0);
    let mut dst = swap_tensor(Device::Cpu, 100);
    let r = swap_blocks(&src, &mut dst, &mapping);
    assert_eq!(
        r.unwrap_err(),
        CacheError::UnsupportedSwapDevices { src: Device::Cpu, dst: Device::Cpu }
    );
}

#[test]
fn scatter_handles_multiple_heads_and_split_layout() {
    // [num_tokens=3, num_heads=2, head_size=4] inputs; key cache
    // [num_blocks=2, 2, head_size/x=2, block_size=2, x=2].
    let key = tensor(
        vec![3, 2, 4],
        Dtype::Float16,
        gpu(),
        (0..24).collect(),
    );
    let value = tensor(
        vec![3, 2, 4],
        Dtype::Float16,
        gpu(),
        (100..124).collect(),
    );
    let mut kc = tensor(vec![2, 2, 2, 2, 2], Dtype::Float16, gpu(), vec![0; 32]);
    let mut vc = tensor(vec![2, 2, 4, 2], Dtype::Float16, gpu(), vec![0; 32]);
    let slots = tensor(vec![3], Dtype::Int64, gpu(), vec![1, 2, 3]);
    reshape_and_cache(&key, &value, &mut kc, &mut vc, &slots).unwrap();
    for t in 0..3usize {
        let slot = [1usize, 2, 3][t];
        for h in 0..2usize {
            for e in 0..4usize {
                let expected = ((t * 2 + h) * 4 + e) as u64;
                assert_eq!(key_cache_entry(&kc, slot, h, e), expected);
                assert_eq!(value_cache_entry(&vc, slot, h, e), 100 + expected);
            }
        }
    }
    // The one slot no token used is untouched.
    for h in 0..2usize {
        for e in 0..4usize {
            assert_eq!(key_cache_entry(&kc, 0, h, e), 0);
            assert_eq!(value_cache_entry(&vc, 0, h, e), 0);
        }
    }
}

#[test]
fn copy_blocks_applies_pairs_in_mapping_order() {
    // Chained mapping: block 1 takes block 0, then block 2 takes the new
    // block 1, so both end up holding block 0's contents.
    let mut kcs = vec![copy_key_layer(0)];
    let mut vcs = vec![copy_value_layer(0)];
    let mapping = vec![(0usize, vec![1usize]), (1usize, vec![2usize])];
    copy_blocks(&mut kcs, &mut vcs, &mapping).unwrap().unwrap();
    let block0: Vec<u64> = (0..4).collect();
    assert_eq!(block(&kcs[0], 0), block0);
    assert_eq!(block(&kcs[0], 1), block0);
    assert_eq!(block(&kcs[0], 2), block0);
    assert_eq!(block(&vcs[0], 2), block0);
    let block3: Vec<u64> = (0..4).map(|k| 30 + k).collect();
    assert_eq!(block(&kcs[0], 3), block3);
}
