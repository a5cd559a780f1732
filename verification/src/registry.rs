use vstd::prelude::*;
use crate::error::CacheError;
use crate::plan::{KernelFamily, KernelKey, KernelVariant};
use crate::tensor::Dtype;

verus! {

/// One memoized kernel: its identity and the process-wide handle under
/// which the compiled module is stored.
#[derive(Clone, Copy, Debug, PartialEq, Eq, Structural)]
pub struct KernelEntry {
    pub key: KernelKey,
    pub handle: u64,
}

/// Whether a compiled kernel variant exists for this element dtype. The
/// embedded kernel sources ship variants for the floating dtypes only.
pub open spec fn dtype_supported(d: Dtype) -> bool {
    d == Dtype::Float16 || d == Dtype::BFloat16 || d == Dtype::Float32
}

pub fn dtype_has_kernel(d: Dtype) -> (r: bool)
    ensures
        r == dtype_supported(d),
{
    match d {
        Dtype::Float16 => true,
        Dtype::BFloat16 => true,
        Dtype::Float32 => true,
        _ => false,
    }
}

/// The handle stored under `key`, if any.
pub open spec fn find_handle(entries: Seq<KernelEntry>, key: KernelKey) -> Option<u64>
    decreases entries.len(),
{
    if entries.len() == 0 {
        None
    } else if entries[0].key == key {
        Some(entries[0].handle)
    } else {
        find_handle(entries.skip(1), key)
    }
}

/// A missing key is one that no entry holds.
pub proof fn lemma_find_handle_none(entries: Seq<KernelEntry>, key: KernelKey)
    ensures
        find_handle(entries, key) is None <==> (forall|i: int|
            0 <= i < entries.len() ==> entries[i].key != key),
    decreases entries.len(),
{
    if entries.len() > 0 {
        lemma_find_handle_none(entries.skip(1), key);
        if find_handle(entries, key) is None {
            assert forall|i: int| 0 <= i < entries.len() implies entries[i].key != key by {
                if i > 0 {
                    assert(entries.skip(1)[i - 1] == entries[i]);
                }
            }
        } else {
            if entries[0].key != key {
                let i0 = choose|i: int|
                    0 <= i < entries.skip(1).len() && entries.skip(1)[i].key == key;
                assert(entries[i0 + 1].key == key);
            }
        }
    }
}

/// Memoization across calls: appending an entry leaves every other key's
/// handle as it was, and makes the new key found exactly when it was not
/// already stored — a handle recorded on a miss is what every later lookup
/// under that key returns.
pub proof fn lemma_find_handle_push(entries: Seq<KernelEntry>, e: KernelEntry, key: KernelKey)
    ensures
        find_handle(entries, key) is Some ==> find_handle(entries.push(e), key) == find_handle(
            entries,
            key,
        ),
        find_handle(entries, key) is None && e.key == key ==> find_handle(entries.push(e), key)
            == Some(e.handle),
        find_handle(entries, key) is None && e.key != key ==> find_handle(entries.push(e), key)
            is None,
    decreases entries.len(),
{
    if entries.len() == 0 {
        let p = entries.push(e);
        assert(p[0] == e);
        assert(p.skip(1) =~= Seq::<KernelEntry>::empty());
        assert(find_handle(p.skip(1), key) is None);
        if e.key == key {
            assert(find_handle(p, key) == Some(e.handle));
        } else {
            assert(find_handle(p, key) == find_handle(p.skip(1), key));
        }
    } else {
        lemma_find_handle_push(entries.skip(1), e, key);
        assert(entries.push(e)[0] == entries[0]);
        assert(entries.push(e).skip(1) =~= entries.skip(1).push(e));
        if entries[0].key != key {
            assert(find_handle(entries.push(e), key) == find_handle(
                entries.skip(1).push(e),
                key,
            ));
            assert(find_handle(entries, key) == find_handle(entries.skip(1), key));
        }
    }
}

/// The kernel registry: process-wide state that memoizes one handle per
/// (family and variant, dtype, device) key. A handle is created once per
/// distinct key on first use, reused by all later callers, and never
/// evicted. A single caller mutates the registry at a time; callers that
/// share it across threads must guard it with mutual exclusion.
pub struct KernelRegistry {
    pub entries: Vec<KernelEntry>,
    pub next_handle: u64,
}

impl KernelRegistry {
    /// Keys are stored at most once, and stored handles stay below the
    /// next fresh one.
    pub open spec fn wf(self) -> bool {
        (forall|i: int, j: int|
            0 <= i < j < self.entries@.len() ==> self.entries@[i].key != self.entries@[j].key)
            && (forall|i: int|
            0 <= i < self.entries@.len() ==> self.entries@[i].handle < self.next_handle)
    }

    pub fn new() -> (r: KernelRegistry)
        ensures
            r.wf(),
            r.entries@.len() == 0,
            r.next_handle == 0,
    {
        KernelRegistry { entries: Vec::new(), next_handle: 0 }
    }

    /// Cache lookup; performs no device work.
    fn find(&self, key: KernelKey) -> (r: Option<u64>)
        ensures
            r == find_handle(self.entries@, key),
    {
        let n = self.entries.len();
        let mut i: usize = 0;
        proof {
            assert(self.entries@.skip(0) =~= self.entries@);
        }
        while i < n
            invariant
                0 <= i <= n,
                n == self.entries@.len(),
                find_handle(self.entries@, key) == find_handle(self.entries@.skip(i as int), key),
            decreases n - i,
        {
            let e = self.entries[i];
            if e.key == key {
                assert(self.entries@.skip(i as int)[0] == e);
                return Some(e.handle);
            }
            assert(self.entries@.skip(i as int).skip(1) =~= self.entries@.skip(i as int + 1));
            i = i + 1;
        }
        assert(self.entries@.skip(n as int) =~= Seq::<KernelEntry>::empty());
        None
    }

    /// Returns the memoized handle for the kernel identified by family,
    /// variant suffix, element dtype and device; on the first request for a
    /// key, records a fresh handle under which the caller loads the
    /// compiled module. Fails exactly when no kernel variant exists for the
    /// dtype.
    pub fn get_or_load(
        &mut self,
        family: KernelFamily,
        variant: KernelVariant,
        dtype: Dtype,
        device_ordinal: u32,
    ) -> (r: Result<u64, CacheError>)
        requires
            old(self).wf(),
            old(self).next_handle < u64::MAX,
        ensures
            final(self).wf(),
            ({
                let key = KernelKey { family, variant, dtype, device_ordinal };
                if !dtype_supported(dtype) {
                    r == Err::<u64, CacheError>(CacheError::UnsupportedDtype { got: dtype })
                        && final(self).entries@ == old(self).entries@ && final(self).next_handle
                        == old(self).next_handle
                } else {
                    match find_handle(old(self).entries@, key) {
                        Some(h) => r == Ok::<u64, CacheError>(h) && final(self).entries@ == old(
                            self,
                        ).entries@ && final(self).next_handle == old(self).next_handle,
                        None => r == Ok::<u64, CacheError>(old(self).next_handle)
                            && final(self).entries@ == old(self).entries@.push(
                            KernelEntry { key, handle: old(self).next_handle },
                        ) && final(self).next_handle == old(self).next_handle + 1,
                    }
                }
            }),
    {
        let key = KernelKey { family, variant, dtype, device_ordinal };
        if !dtype_has_kernel(dtype) {
            return Err(CacheError::UnsupportedDtype { got: dtype });
        }
        match self.find(key) {
            Some(h) => Ok(h),
            None => {
                let h = self.next_handle;
                proof {
                    lemma_find_handle_none(self.entries@, key);
                }
                self.entries.push(KernelEntry { key, handle: h });
                self.next_handle = h + 1;
                Ok(h)
            },
        }
    }
}

} // verus!
