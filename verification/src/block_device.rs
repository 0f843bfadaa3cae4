//! The capability contract every storage medium implements: a fixed block
//! size, a block count, and whole-block reads and writes.

use vstd::prelude::*;

verus! {

/// The default block size of a sector-addressed medium, in bytes.
pub const DEFAULT_BLOCK_SIZE: usize = 512;

/// Marker for block devices; kept separate so that device collections can
/// be bounded by it alone.
pub trait BlockDeviceMarker {

}

/// Interface for block devices.  A device is modelled by a flat byte
/// sequence holding `block_count` blocks of `block_size` bytes each; block
/// `i` occupies bytes `[i * block_size, (i + 1) * block_size)`.
pub trait BlockDevice: BlockDeviceMarker + Sized {
    /// The block size of this device.
    spec fn spec_block_size(&self) -> nat;

    /// How many blocks the device holds.
    spec fn spec_block_count(&self) -> nat;

    /// The bytes the device holds, block after block.
    spec fn spec_data(&self) -> Seq<u8>;

    /// The device's internal invariant.
    spec fn inv(&self) -> bool;

    /// A usable device has a positive block size and exactly
    /// `block_size * block_count` bytes.
    proof fn inv_properties(&self)
        requires
            self.inv(),
        ensures
            self.spec_data().len() == self.spec_block_size() * self.spec_block_count(),
            self.spec_block_size() >= 1,
        ;

    /// Returns the block size in bytes.
    fn block_size(&self) -> (r: usize)
        requires
            self.inv(),
        ensures
            r == self.spec_block_size(),
        ;

    /// Returns the total number of blocks.
    fn block_count(&self) -> (r: u64)
        requires
            self.inv(),
        ensures
            r == self.spec_block_count(),
        ;

    /// Reads block `block_id` into `buffer`, which must already hold
    /// exactly one block's worth of bytes.  The read fails exactly when the
    /// buffer has the wrong length or the block index is out of range.
    fn read_block(&self, block_id: u64, buffer: &mut Vec<u8>)
        -> (r: Result<(), &'static str>)
        requires
            self.inv(),
        ensures
            final(buffer)@.len() == old(buffer)@.len(),
            match r {
                Ok(_) => {
                    &&& old(buffer)@.len() == self.spec_block_size()
                    &&& (block_id as nat) < self.spec_block_count()
                    &&& final(buffer)@ == self.spec_data().subrange(
                        block_id as int * self.spec_block_size() as int,
                        (block_id as int + 1) * self.spec_block_size() as int,
                    )
                },
                Err(_) => {
                    &&& final(buffer)@ == old(buffer)@
                    &&& (old(buffer)@.len() != self.spec_block_size()
                        || block_id as nat >= self.spec_block_count())
                },
            },
        ;

    /// Writes `buffer`, one block's worth of bytes, to block `block_id`.
    /// The write fails exactly when the buffer has the wrong length or the
    /// block index is out of range, and then changes nothing.
    fn write_block(&mut self, block_id: u64, buffer: &[u8])
        -> (r: Result<(), &'static str>)
        requires
            old(self).inv(),
        ensures
            final(self).inv(),
            final(self).spec_block_size() == old(self).spec_block_size(),
            final(self).spec_block_count() == old(self).spec_block_count(),
            match r {
                Ok(_) => {
                    &&& buffer@.len() == old(self).spec_block_size()
                    &&& (block_id as nat) < old(self).spec_block_count()
                    &&& final(self).spec_data() == old(self).spec_data().subrange(
                        0,
                        block_id as int * old(self).spec_block_size() as int,
                    ) + buffer@ + old(self).spec_data().skip(
                        (block_id as int + 1) * old(self).spec_block_size() as int,
                    )
                },
                Err(_) => {
                    &&& final(self).spec_data() == old(self).spec_data()
                    &&& (buffer@.len() != old(self).spec_block_size()
                        || block_id as nat >= old(self).spec_block_count())
                },
            },
        ;
}

} // verus!
