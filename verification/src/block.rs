//! Block devices.
use crate::text::{byte_range, copy_bytes};
use vstd::prelude::*;

verus! {

/// Bytes per sector.
pub const SECTOR_SIZE: usize = 512;

/// Errors of block devices.
#[derive(Debug, Clone, Copy, PartialEq, Eq, Structural)]
pub enum BlockError {
    /// The sectors lie beyond the end of the device.
    OutOfRange,
    /// The data is not a whole number of sectors of the stated count.
    BadLength,
    /// The medium failed.
    Medium,
}

/// A medium that is read in sectors.
pub trait BlockDevice {
    /// What reading `count` sectors from `lba` on gives.
    spec fn sectors_at(&self, lba: u64, count: u32) -> Result<Seq<u8>, BlockError>;

    /// Read `count` sectors from `lba` on.
    fn read_sectors(&self, lba: u64, count: u32) -> (r: Result<Vec<u8>, BlockError>)
        ensures
            match self.sectors_at(lba, count) {
                Ok(s) => r is Ok && r->Ok_0@ == s,
                Err(e) => r == Err::<Vec<u8>, BlockError>(e),
            },
            r is Ok ==> r->Ok_0@.len() == count * SECTOR_SIZE,
    ;
}

/// A block device in memory.
#[derive(Debug)]
pub struct MemBlockDevice {
    data: Vec<u8>,
}

impl View for MemBlockDevice {
    type V = Seq<u8>;

    closed spec fn view(&self) -> Seq<u8> {
        self.data@
    }
}

/// Whether sectors lie on a medium of some bytes.
pub open spec fn in_range(size: nat, lba: u64, count: u32) -> bool {
    (lba + count) * SECTOR_SIZE <= size
}

impl MemBlockDevice {
    /// A device with a number of zeroed sectors, where that fits into memory
    /// addresses.
    pub fn new(sectors: u64) -> (r: Result<Self, BlockError>)
        ensures
            if sectors * SECTOR_SIZE <= usize::MAX {
                r is Ok && r->Ok_0@ == Seq::new((sectors * SECTOR_SIZE) as nat, |i: int| 0u8)
            } else {
                r == Err::<MemBlockDevice, BlockError>(BlockError::OutOfRange)
            },
    {
        let limit: u64 = usize::MAX as u64 / 512;
        if sectors > limit {
            return Err(BlockError::OutOfRange);
        }
        let size: usize = sectors as usize * SECTOR_SIZE;
        let mut data: Vec<u8> = Vec::new();
        data.resize(size, 0);
        assert(data@ =~= Seq::new((sectors * SECTOR_SIZE) as nat, |i: int| 0u8));
        Ok(MemBlockDevice { data })
    }

    /// The byte range of sectors, where they lie on the device.
    fn span(&self, lba: u64, count: u32) -> (r: Option<(usize, usize)>)
        ensures
            if in_range(self@.len(), lba, count) {
                r matches Some((from, to)) && from == lba * SECTOR_SIZE && to == (lba + count)
                    * SECTOR_SIZE && from <= to <= self@.len()
            } else {
                r is None
            },
    {
        let total: u64 = (self.data.len() / SECTOR_SIZE) as u64;
        if count as u64 > total || lba > total - count as u64 {
            return None;
        }
        let from: usize = lba as usize * SECTOR_SIZE;
        let to: usize = (lba as usize + count as usize) * SECTOR_SIZE;
        Some((from, to))
    }

    /// Write `count` sectors from `lba` on.
    pub fn write_sectors(&mut self, lba: u64, count: u32, bytes: &[u8]) -> (r: Result<(), BlockError>)
        ensures
            if bytes@.len() != count * SECTOR_SIZE {
                r == Err::<(), BlockError>(BlockError::BadLength) && final(self)@ == old(self)@
            } else if !in_range(old(self)@.len(), lba, count) {
                r == Err::<(), BlockError>(BlockError::OutOfRange) && final(self)@ == old(self)@
            } else {
                &&& r is Ok
                &&& final(self)@.len() == old(self)@.len()
                &&& final(self)@ == old(self)@.take(lba * SECTOR_SIZE as int) + bytes@ + old(
                    self,
                )@.skip((lba + count) * SECTOR_SIZE as int)
            },
    {
        if bytes.len() % SECTOR_SIZE != 0 || (bytes.len() / SECTOR_SIZE) as u64 != count as u64 {
            return Err(BlockError::BadLength);
        }
        let (from, to) = match self.span(lba, count) {
            Some(s) => s,
            None => {
                return Err(BlockError::OutOfRange);
            },
        };
        let ghost before = self.data@;
        let mut i: usize = 0;
        while i < bytes.len()
            invariant
                i <= bytes@.len(),
                from + bytes@.len() == to,
                to <= before.len(),
                self.data@.len() == before.len(),
                forall|j: int|
                    0 <= j < before.len() ==> #[trigger] self.data@[j] == (if from <= j < from + i {
                        bytes@[j - from]
                    } else {
                        before[j]
                    }),
            decreases bytes@.len() - i,
        {
            self.data[from + i] = bytes[i];
            i += 1;
        }
        assert(self@ =~= before.take(from as int) + bytes@ + before.skip(to as int));
        Ok(())
    }
}

impl BlockDevice for MemBlockDevice {
    open spec fn sectors_at(&self, lba: u64, count: u32) -> Result<Seq<u8>, BlockError> {
        if in_range(self@.len(), lba, count) {
            Ok(self@.subrange(lba * SECTOR_SIZE as int, (lba + count) * SECTOR_SIZE as int))
        } else {
            Err(BlockError::OutOfRange)
        }
    }

    fn read_sectors(&self, lba: u64, count: u32) -> (r: Result<Vec<u8>, BlockError>) {
        match self.span(lba, count) {
            Some((from, to)) => Ok(copy_bytes(byte_range(self.data.as_slice(), from, to))),
            None => Err(BlockError::OutOfRange),
        }
    }
}

/// Law: sectors that were written are read back, and others stay as they were.
pub proof fn law_write_then_read(before: Seq<u8>, lba: u64, count: u32, bytes: Seq<u8>, at: u64, n: u32)
    requires
        bytes.len() == count * SECTOR_SIZE,
        in_range(before.len(), lba, count),
        in_range(before.len(), at, n),
    ensures
        ({
            let after = before.take(lba * SECTOR_SIZE as int) + bytes + before.skip(
                (lba + count) * SECTOR_SIZE as int,
            );
            &&& after.len() == before.len()
            &&& after.subrange(lba * SECTOR_SIZE as int, (lba + count) * SECTOR_SIZE as int)
                == bytes
            &&& (at + n <= lba || lba + count <= at) ==> after.subrange(
                at * SECTOR_SIZE as int,
                (at + n) * SECTOR_SIZE as int,
            ) == before.subrange(at * SECTOR_SIZE as int, (at + n) * SECTOR_SIZE as int)
        }),
{
    let after = before.take(lba * SECTOR_SIZE as int) + bytes + before.skip(
        (lba + count) * SECTOR_SIZE as int,
    );
    assert(after.subrange(lba * SECTOR_SIZE as int, (lba + count) * SECTOR_SIZE as int) =~= bytes);
    if at + n <= lba || lba + count <= at {
        assert(after.subrange(at * SECTOR_SIZE as int, (at + n) * SECTOR_SIZE as int)
            =~= before.subrange(at * SECTOR_SIZE as int, (at + n) * SECTOR_SIZE as int));
    }
}

} // verus!
