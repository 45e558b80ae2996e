use vstd::prelude::*;
use crate::virtio_fatfs::SECTOR_SIZE;

verus! {

/// Bytes in one block of the ext4 file system.
pub const EXT4_BLOCK_SIZE: usize = 4096;

/// How many device sectors make up one file-system block.
pub fn sectors_per_block() -> (n: usize)
    ensures
        n == EXT4_BLOCK_SIZE / SECTOR_SIZE,
        n == 8,
{
    EXT4_BLOCK_SIZE / SECTOR_SIZE
}

/// The first device sector of file-system block `block`.
pub fn first_sector(block: usize, sectors_per_block: usize) -> (sector: usize)
    requires
        block * sectors_per_block <= usize::MAX,
    ensures
        sector == block * sectors_per_block,
{
    block * sectors_per_block
}

/// How many whole file-system blocks a device of `capacity` sectors holds.
pub fn total_blocks(capacity: u64, sectors_per_block: usize) -> (blocks: u64)
    requires
        sectors_per_block > 0,
    ensures
        blocks == capacity / (sectors_per_block as u64),
{
    capacity / sectors_per_block as u64
}

/// The seconds part of the file system's clock: the real-time clock's Unix
/// time taken as a signed number, or 0 when there is no clock.
pub fn current_time_seconds(rtc_timestamp: Option<u64>) -> (seconds: i64)
    ensures
        seconds == match rtc_timestamp {
            Some(t) => t as i64,
            None => 0,
        },
{
    match rtc_timestamp {
        Some(t) => t as i64,
        None => 0,
    }
}

} // verus!
