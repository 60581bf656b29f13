//! Values that native calls hand out as numbers: filesystem block counts and
//! `sysconf` answers, checked before they are reported.
use vstd::prelude::*;
use crate::error::Error;

verus! {

/// Disk space, in kilobytes.
#[derive(Debug, Clone, Copy)]
pub struct DiskInfo {
    pub total: u64,
    pub free: u64,
}

impl DiskInfo {
    /// No more is free than there is in total.
    pub open spec fn wf(&self) -> bool {
        self.free <= self.total
    }
}

/// The kilobytes in `blocks` blocks of `block_size` bytes, rounded down.
pub open spec fn kilobytes(blocks: u64, block_size: u64) -> int {
    (blocks * block_size) / 1024
}

/// The disk space of a filesystem from its statistics (as `statvfs` reports
/// them): `blocks` in all, `free_blocks` of them free, each `block_size`
/// bytes. Fails with `Unknown` when more blocks are free than there are, or
/// the total does not fit in 64 bits.
pub fn disk_info_from_stats(blocks: u64, free_blocks: u64, block_size: u64) -> (r: Result<
    DiskInfo,
    Error,
>)
    ensures
        r == if free_blocks <= blocks && kilobytes(blocks, block_size) <= u64::MAX {
            Ok::<DiskInfo, Error>(
                DiskInfo {
                    total: kilobytes(blocks, block_size) as u64,
                    free: kilobytes(free_blocks, block_size) as u64,
                },
            )
        } else {
            Err(Error::Unknown)
        },
        r matches Ok(d) ==> d.wf(),
{
    if free_blocks > blocks {
        return Err(Error::Unknown);
    }
    assert(0 <= (blocks as int) * (block_size as int) <= 0xffff_ffff_ffff_ffffu64 as int
        * 0xffff_ffff_ffff_ffffu64 as int) by (nonlinear_arith)
        requires
            blocks <= 0xffff_ffff_ffff_ffffu64,
            block_size <= 0xffff_ffff_ffff_ffffu64,
    ;
    assert((free_blocks as int) * (block_size as int) <= (blocks as int) * (block_size as int))
        by (nonlinear_arith)
        requires
            free_blocks <= blocks,
    ;
    let total_bytes: u128 = blocks as u128 * block_size as u128;
    let free_bytes: u128 = free_blocks as u128 * block_size as u128;
    let total = total_bytes / 1024;
    let free = free_bytes / 1024;
    assert(free <= total) by (nonlinear_arith)
        requires
            free_bytes <= total_bytes,
            total == total_bytes / 1024,
            free == free_bytes / 1024,
    ;
    if total > u64::MAX as u128 {
        return Err(Error::Unknown);
    }
    Ok(DiskInfo { total: total as u64, free: free as u64 })
}

/// Of the same filesystem, the free kilobytes never exceed the total.
pub proof fn lemma_disk_free_within_total(blocks: u64, free_blocks: u64, block_size: u64)
    requires
        free_blocks <= blocks,
    ensures
        kilobytes(free_blocks, block_size) <= kilobytes(blocks, block_size),
{
    assert((free_blocks as int) * (block_size as int) <= (blocks as int) * (block_size as int))
        by (nonlinear_arith)
        requires
            free_blocks <= blocks,
    ;
    let f = (free_blocks as int) * (block_size as int);
    let t = (blocks as int) * (block_size as int);
    assert(f / 1024 <= t / 1024) by (nonlinear_arith)
        requires
            0 <= f <= t,
    ;
}

/// The number of processors that `sysconf` reported: a count from 1 up,
/// which fits in 32 bits. Fails with `Unknown` on anything else (a negative
/// answer is the call's error sentinel).
pub fn cpu_count(reported: i64) -> (r: Result<u32, Error>)
    ensures
        r == if 1 <= reported <= u32::MAX {
            Ok::<u32, Error>(reported as u32)
        } else {
            Err(Error::Unknown)
        },
{
    if reported < 1 || reported > u32::MAX as i64 {
        Err(Error::Unknown)
    } else {
        Ok(reported as u32)
    }
}

} // verus!
