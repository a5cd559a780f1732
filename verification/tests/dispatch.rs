use paged_kv_cache::error::CacheError;
use paged_kv_cache::layers::{rotary_embedding, rotation_pairs};
use paged_kv_cache::plan::{KernelFamily, KernelVariant};
use paged_kv_cache::pointer::{resolve_device_pointer, DevicePointer};
use paged_kv_cache::registry::KernelRegistry;
use paged_kv_cache::tensor::{Device, Dtype, Tensor, TensorRole};

fn tensor(dims: Vec<usize>, dtype: Dtype, device: Device, data: Vec<u64>) -> Tensor {
    Tensor { dims, dtype, device, data }
}

fn gpu() -> Device {
    Device::Cuda(0)
}

fn positions() -> Tensor {
    tensor(vec![2], Dtype::Int64, gpu(), vec![0, 1])
}

// [num_tokens=2, num_heads * head_size = 4] query/key, head_size 2.
fn qk(device: Device) -> Tensor {
    tensor(vec![2, 4], Dtype::Float32, device, vec![0; 8])
}

// Rotation table with rot_dim = 2.
fn cos_sin(device: Device) -> Tensor {
    tensor(vec![8, 2], Dtype::Float32, device, vec![0; 16])
}

#[test]
fn rotary_plan_derives_heads_and_variant() {
    let q = qk(gpu());
    let k = qk(gpu());
    let plan = rotary_embedding(&positions(), &q, &k, 2, &cos_sin(gpu()), true).unwrap();
    assert_eq!(plan.launch.grid_x, 2);
    assert_eq!(plan.launch.block_x, 2);
    assert_eq!(plan.num_heads, 2);
    assert_eq!(plan.num_kv_heads, 2);
    assert_eq!(plan.rot_dim, 2);
    assert_eq!(plan.query_stride, 4);
    assert_eq!(plan.key_stride, 4);
    assert_eq!(plan.head_size, 2);
    assert_eq!(plan.kernel.family, KernelFamily::RotaryEmbedding);
    assert_eq!(plan.kernel.variant, KernelVariant::Neox);
    let normal = rotary_embedding(&positions(), &q, &k, 2, &cos_sin(gpu()), false).unwrap();
    assert_eq!(normal.kernel.variant, KernelVariant::Normal);
    assert_ne!(plan.kernel, normal.kernel);
}

#[test]
fn rotary_rejects_device_mismatches() {
    let mut p = positions();
    p.device = Device::Cpu;
    let r = rotary_embedding(&p, &qk(Device::Cpu), &qk(Device::Cpu), 2, &cos_sin(Device::Cpu), true);
    assert_eq!(
        r.unwrap_err(),
        CacheError::NotCuda { role: TensorRole::Positions, got: Device::Cpu }
    );
    let r = rotary_embedding(&positions(), &qk(Device::Cuda(1)), &qk(gpu()), 2, &cos_sin(gpu()), true);
    assert_eq!(
        r.unwrap_err(),
        CacheError::DeviceMismatch {
            role: TensorRole::Query,
            expected: Device::Cuda(0),
            got: Device::Cuda(1),
        }
    );
    let r = rotary_embedding(&positions(), &qk(gpu()), &qk(Device::Cuda(1)), 2, &cos_sin(gpu()), true);
    assert_eq!(
        r.unwrap_err(),
        CacheError::DeviceMismatch {
            role: TensorRole::Key,
            expected: Device::Cuda(0),
            got: Device::Cuda(1),
        }
    );
    let r = rotary_embedding(&positions(), &qk(gpu()), &qk(gpu()), 2, &cos_sin(Device::Cuda(1)), true);
    assert_eq!(
        r.unwrap_err(),
        CacheError::DeviceMismatch {
            role: TensorRole::CosSinCache,
            expected: Device::Cuda(0),
            got: Device::Cuda(1),
        }
    );
}

#[test]
fn rotation_pairs_follow_each_convention() {
    assert_eq!(rotation_pairs(8, true), vec![(0, 4), (1, 5), (2, 6), (3, 7)]);
    assert_eq!(rotation_pairs(8, false), vec![(0, 1), (2, 3), (4, 5), (6, 7)]);
    assert_ne!(rotation_pairs(8, true), rotation_pairs(8, false));
    // Every paired element lies below rot_dim: the tail of each head is
    // untouched.
    for (a, b) in rotation_pairs(6, true) {
        assert!(a < 6 && b < 6);
    }
    for (a, b) in rotation_pairs(6, false) {
        assert!(a < 6 && b < 6);
    }
}

#[test]
fn registry_memoizes_one_handle_per_key() {
    let mut reg = KernelRegistry::new();
    let h0 = reg
        .get_or_load(KernelFamily::ReshapeAndCache, KernelVariant::Plain, Dtype::Float16, 0)
        .unwrap();
    let again = reg
        .get_or_load(KernelFamily::ReshapeAndCache, KernelVariant::Plain, Dtype::Float16, 0)
        .unwrap();
    assert_eq!(h0, again);
    let other_dtype = reg
        .get_or_load(KernelFamily::ReshapeAndCache, KernelVariant::Plain, Dtype::Float32, 0)
        .unwrap();
    assert_ne!(h0, other_dtype);
    let other_variant = reg
        .get_or_load(KernelFamily::RotaryEmbedding, KernelVariant::Neox, Dtype::Float16, 0)
        .unwrap();
    assert_ne!(h0, other_variant);
    assert_ne!(other_dtype, other_variant);
    // A hit stores nothing new.
    assert_eq!(reg.entries.len(), 3);
}

#[test]
fn registry_rejects_dtypes_without_a_kernel_variant() {
    let mut reg = KernelRegistry::new();
    let r = reg.get_or_load(KernelFamily::CopyBlocks, KernelVariant::Plain, Dtype::Int64, 0);
    assert_eq!(r.unwrap_err(), CacheError::UnsupportedDtype { got: Dtype::Int64 });
    assert_eq!(reg.entries.len(), 0);
}

#[test]
fn device_pointer_arithmetic_is_checked() {
    let p = resolve_device_pointer(TensorRole::Source, 0x1000, 8, 64, Device::Cuda(0)).unwrap();
    assert_eq!(p.addr, 0x1008);
    assert_eq!(p.len, 64);
    let q = p.byte_offset(16).unwrap();
    assert_eq!(q.addr, 0x1018);
    assert_eq!(q.len, 48);
    assert!(p.byte_offset(65).is_none());
    let b = p.block_range(3, 16).unwrap();
    assert_eq!(b.addr, 0x1008 + 48);
    assert_eq!(b.len, 16);
    assert!(p.block_range(4, 16).is_none());
    let host = resolve_device_pointer(TensorRole::Source, 0x1000, 8, 64, Device::Cpu);
    assert_eq!(
        host.unwrap_err(),
        CacheError::NotCuda { role: TensorRole::Source, got: Device::Cpu }
    );
    let copy = DevicePointer { addr: 1, len: 2, device: Device::Cuda(0) };
    assert_eq!(copy.byte_offset(2).unwrap().len, 0);
}
