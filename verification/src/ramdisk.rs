//! A RAM-backed block device: one contiguous byte buffer sliced into
//! fixed-size blocks.

use vstd::prelude::*;
use crate::block_device::{BlockDevice, BlockDeviceMarker, DEFAULT_BLOCK_SIZE};

verus! {

/// Total bytes of the default RAM disk.
pub const RAMDISK_SIZE_BYTES: usize = 2048;

/// A block device backed by kernel memory.
pub struct RamDisk {
    data: Vec<u8>,
    block_size: usize,
}

impl RamDisk {
    /// Creates a RAM disk of the default size and block size.
    pub fn new() -> (r: Result<RamDisk, &'static str>)
        ensures
            match r {
                Ok(d) => d.inv() && d.spec_block_size() == DEFAULT_BLOCK_SIZE
                    && d.spec_data()
                        == Seq::new(RAMDISK_SIZE_BYTES as nat, |i: int| 0u8),
                Err(_) => false,
            },
    {
        Self::with_size(RAMDISK_SIZE_BYTES, DEFAULT_BLOCK_SIZE)
    }

    /// Creates a RAM disk of `total_size_bytes` bytes in blocks of
    /// `block_size` bytes.  Both sizes must be nonzero and the total must
    /// be a multiple of the block size.
    pub fn with_size(total_size_bytes: usize, block_size: usize)
        -> (r: Result<RamDisk, &'static str>)
        ensures
            match r {
                Ok(d) => {
                    &&& total_size_bytes >= 1 && block_size >= 1
                    &&& total_size_bytes % block_size == 0
                    &&& d.inv()
                    &&& d.spec_block_size() == block_size
                    &&& d.spec_block_count() == total_size_bytes / block_size
                    &&& d.spec_data()
                        == Seq::new(total_size_bytes as nat, |i: int| 0u8)
                },
                Err(e) => {
                    &&& (total_size_bytes == 0 || block_size == 0
                        || total_size_bytes % block_size != 0)
                    &&& (total_size_bytes == 0 || block_size == 0
                        ==> e@ == "Total size and block size must be non-zero."@)
                    &&& (total_size_bytes != 0 && block_size != 0
                        ==> e@ == "Total size must be a multiple of block size."@)
                },
            },
    {
        if total_size_bytes == 0 || block_size == 0 {
            return Err("Total size and block size must be non-zero.");
        }
        if total_size_bytes % block_size != 0 {
            return Err("Total size must be a multiple of block size.");
        }
        let mut data: Vec<u8> = Vec::new();
        let mut i: usize = 0;
        while i < total_size_bytes
            invariant
                i <= total_size_bytes,
                data@ == Seq::new(i as nat, |k: int| 0u8),
            decreases total_size_bytes - i,
        {
            data.push(0u8);
            i = i + 1;
            proof {
                assert(data@ =~= Seq::new(i as nat, |k: int| 0u8));
            }
        }
        let d = RamDisk { data, block_size };
        proof {
            vstd::arithmetic::div_mod::lemma_fundamental_div_mod(
                total_size_bytes as int,
                block_size as int,
            );
        }
        Ok(d)
    }
}

impl BlockDeviceMarker for RamDisk {

}

impl BlockDevice for RamDisk {
    closed spec fn spec_block_size(&self) -> nat {
        self.block_size as nat
    }

    closed spec fn spec_block_count(&self) -> nat {
        (self.data@.len() as nat) / (self.block_size as nat)
    }

    closed spec fn spec_data(&self) -> Seq<u8> {
        self.data@
    }

    closed spec fn inv(&self) -> bool {
        self.block_size >= 1 && self.data@.len() % (self.block_size as nat) == 0
    }

    proof fn inv_properties(&self)
    {
        vstd::arithmetic::div_mod::lemma_fundamental_div_mod(
            self.data@.len() as int,
            self.block_size as int,
        );
    }

    fn block_size(&self) -> (r: usize) {
        self.block_size
    }

    fn block_count(&self) -> (r: u64) {
        (self.data.len() / self.block_size) as u64
    }

    fn read_block(&self, block_id: u64, buffer: &mut Vec<u8>)
        -> (r: Result<(), &'static str>)
    {
        if buffer.len() != self.block_size {
            return Err("Buffer length does not match block size.");
        }
        proof {
            self.inv_properties();
        }
        let num_blocks = self.block_count();
        if block_id >= num_blocks {
            return Err("Block ID out of bounds.");
        }
        proof {
            vstd::std_specs::vec::axiom_spec_len(&self.data);
            let bs = self.spec_block_size() as int;
            let cnt = self.spec_block_count() as int;
            assert(self.spec_data().len() == bs * cnt);
            assert(cnt <= bs * cnt) by (nonlinear_arith)
                requires bs >= 1, cnt >= 0;
            assert((block_id as int) * bs + bs == (block_id as int + 1) * bs)
                by (nonlinear_arith);
            assert((block_id as int + 1) * bs <= cnt * bs) by (nonlinear_arith)
                requires block_id as int + 1 <= cnt, bs >= 0;
            assert(cnt * bs == bs * cnt) by (nonlinear_arith);
        }
        let start = (block_id as usize) * self.block_size;
        let mut j: usize = 0;
        while j < self.block_size
            invariant
                self.inv(),
                j <= self.block_size,
                start == block_id as int * self.block_size as int,
                start + self.block_size <= self.data@.len(),
                start + self.block_size <= usize::MAX,
                buffer@.len() == self.block_size,
                old(buffer)@.len() == self.block_size,
                buffer@ == self.data@.subrange(start as int, start + j)
                    + old(buffer)@.skip(j as int),
            decreases self.block_size - j,
        {
            let ghost prev = buffer@;
            buffer[j] = self.data[start + j];
            proof {
                let target = self.data@.subrange(start as int, start + j + 1)
                    + old(buffer)@.skip(j + 1);
                assert forall|k: int| 0 <= k < buffer@.len()
                    implies buffer@[k] == target[k] by {
                    if k < j {
                        assert(prev[k] == self.data@[start + k]);
                    } else if k > j {
                        assert(prev[k] == old(buffer)@.skip(j as int)[k - j]);
                    }
                }
                assert(buffer@ =~= target);
            }
            j = j + 1;
        }
        proof {
            assert(buffer@ =~= self.data@.subrange(
                block_id as int * self.block_size as int,
                (block_id as int + 1) * self.block_size as int,
            ));
        }
        Ok(())
    }

    fn write_block(&mut self, block_id: u64, buffer: &[u8])
        -> (r: Result<(), &'static str>)
    {
        if buffer.len() != self.block_size {
            return Err("Buffer length does not match block size.");
        }
        proof {
            self.inv_properties();
        }
        let num_blocks = self.block_count();
        if block_id >= num_blocks {
            return Err("Block ID out of bounds.");
        }
        proof {
            vstd::std_specs::vec::axiom_spec_len(&self.data);
            let bs = self.spec_block_size() as int;
            let cnt = self.spec_block_count() as int;
            assert(self.spec_data().len() == bs * cnt);
            assert(cnt <= bs * cnt) by (nonlinear_arith)
                requires bs >= 1, cnt >= 0;
            assert((block_id as int) * bs + bs == (block_id as int + 1) * bs)
                by (nonlinear_arith);
            assert((block_id as int + 1) * bs <= cnt * bs) by (nonlinear_arith)
                requires block_id as int + 1 <= cnt, bs >= 0;
            assert(cnt * bs == bs * cnt) by (nonlinear_arith);
        }
        let start = (block_id as usize) * self.block_size;
        let mut j: usize = 0;
        while j < self.block_size
            invariant
                self.block_size == old(self).block_size,
                self.block_size >= 1,
                j <= self.block_size,
                buffer@.len() == self.block_size,
                start == block_id as int * self.block_size as int,
                start + self.block_size <= self.data@.len(),
                start + self.block_size <= usize::MAX,
                self.data@.len() == old(self).data@.len(),
                self.data@ == old(self).data@.subrange(0, start as int)
                    + buffer@.subrange(0, j as int)
                    + old(self).data@.skip(start + j),
            decreases self.block_size - j,
        {
            self.data[start + j] = buffer[j];
            proof {
                assert(self.data@ =~= old(self).data@.subrange(0, start as int)
                    + buffer@.subrange(0, j + 1)
                    + old(self).data@.skip(start + j + 1));
            }
            j = j + 1;
        }
        proof {
            assert(buffer@.subrange(0, self.block_size as int) =~= buffer@);
            assert(self.data@ =~= old(self).data@.subrange(
                0,
                block_id as int * self.block_size as int,
            ) + buffer@ + old(self).data@.skip(
                (block_id as int + 1) * self.block_size as int,
            ));
        }
        Ok(())
    }
}

} // verus!
