use vstd::prelude::*;
use crate::virtio_fatfs::{chunk_at, copied_from_sector, copied_into_sector, is_plan, Chunk, SECTOR_SIZE};

verus! {

/// The bytes of sector `sector` of a device whose bytes are `disk`.
pub open spec fn sector_of(disk: Seq<u8>, sector: usize) -> Seq<u8> {
    disk.subrange(sector * SECTOR_SIZE, sector * SECTOR_SIZE + SECTOR_SIZE)
}

/// The device once sector `sector` holds `bytes`.
pub open spec fn with_sector(disk: Seq<u8>, sector: usize, bytes: Seq<u8>) -> Seq<u8> {
    Seq::new(disk.len(), |j: int| if sector * SECTOR_SIZE <= j < sector * SECTOR_SIZE + SECTOR_SIZE {
        bytes[j - sector * SECTOR_SIZE]
    } else {
        disk[j]
    })
}

/// The buffer after a read that follows `plan`: for each chunk in turn, its
/// sector is read and its bytes copied into the buffer.
pub open spec fn read_through(disk: Seq<u8>, buffer: Seq<u8>, plan: Seq<Chunk>) -> Seq<u8>
    decreases plan.len(),
{
    if plan.len() == 0 {
        buffer
    } else {
        let c = plan.last();
        copied_from_sector(read_through(disk, buffer, plan.drop_last()), sector_of(disk, c.sector), c)
    }
}

/// The device after a write that follows `plan`: for each chunk in turn, its
/// sector is read, the chunk's bytes of `data` copied into it, and the
/// sector written back.
pub open spec fn write_through(disk: Seq<u8>, data: Seq<u8>, plan: Seq<Chunk>) -> Seq<u8>
    decreases plan.len(),
{
    if plan.len() == 0 {
        disk
    } else {
        let c = plan.last();
        let before = write_through(disk, data, plan.drop_last());
        with_sector(before, c.sector, copied_into_sector(sector_of(before, c.sector), data, c))
    }
}

/// Whether a transfer of `length` bytes at `cursor` fits a device of
/// `disk_length` bytes, a whole number of sectors addressable in memory.
pub open spec fn transfer_fits(cursor: u64, length: usize, disk_length: nat) -> bool {
    &&& cursor + length <= disk_length
    &&& disk_length % (SECTOR_SIZE as nat) == 0
    &&& disk_length <= usize::MAX
}

/// Where the bytes before the chunk's `i`-th one end: the plan's bytes
/// before it, the transfer's bytes when `i` is the plan's length.
pub open spec fn done_before(length: usize, plan: Seq<Chunk>, i: int) -> int {
    if i < plan.len() { plan[i].buffer_offset as int } else { length as int }
}

proof fn lemma_chunk_in_disk(cursor: u64, length: usize, plan: Seq<Chunk>, i: int, disk_length: nat)
    requires
        is_plan(cursor, length, plan),
        transfer_fits(cursor, length, disk_length),
        0 <= i < plan.len(),
    ensures
        plan[i].sector * SECTOR_SIZE + plan[i].sector_offset == cursor + plan[i].buffer_offset,
        plan[i].sector_offset + plan[i].length <= SECTOR_SIZE,
        plan[i].buffer_offset + plan[i].length <= length,
        plan[i].sector * SECTOR_SIZE + SECTOR_SIZE <= disk_length,
{
    let c = plan[i];
    assert(c == chunk_at(cursor, length, c.buffer_offset));
    let p: int = cursor + c.buffer_offset;
    assert(c.buffer_offset < length);
    vstd::arithmetic::div_mod::lemma_fundamental_div_mod(p, 512);
    let q = p / 512;
    let r = p % 512;
    assert(0 <= r < 512);
    assert(0 <= q <= p);
    assert(p < disk_length);
    assert(q <= usize::MAX);
    assert(c.sector == q);
    assert(c.sector_offset == r);
    let m: int = disk_length as int / 512;
    vstd::arithmetic::div_mod::lemma_fundamental_div_mod(disk_length as int, 512);
    assert(disk_length == 512 * m);
    assert(q * 512 < m * 512);
    assert(q < m) by (nonlinear_arith)
        requires
            q * 512 < m * 512,
    ;
    assert(q * 512 + 512 <= m * 512) by (nonlinear_arith)
        requires
            q < m,
    ;
}

proof fn lemma_plan_steps(cursor: u64, length: usize, plan: Seq<Chunk>, k: int)
    requires
        is_plan(cursor, length, plan),
        0 < k <= plan.len(),
    ensures
        plan[k - 1].buffer_offset == (if k == 1 { 0 } else { plan[k - 2].buffer_offset + plan[k - 2].length }),
        done_before(length, plan, k) == plan[k - 1].buffer_offset + plan[k - 1].length,
{
    if k >= 2 {
        let i = k - 2;
        assert(plan[i + 1].buffer_offset == plan[i].buffer_offset + plan[i].length);
    }
    if k < plan.len() {
        let i = k - 1;
        assert(plan[i + 1].buffer_offset == plan[i].buffer_offset + plan[i].length);
    }
}

proof fn lemma_read_prefix(disk: Seq<u8>, cursor: u64, length: usize, buffer: Seq<u8>, plan: Seq<Chunk>, k: int)
    requires
        is_plan(cursor, length, plan),
        transfer_fits(cursor, length, disk.len()),
        buffer.len() == length,
        0 <= k <= plan.len(),
    ensures
        ({
            let r = read_through(disk, buffer, plan.take(k));
            let end = if k == 0 { 0 } else { done_before(length, plan, k) };
            &&& r.len() == length
            &&& forall|i: int| 0 <= i < length ==> #[trigger] r[i] == if i < end { disk[cursor + i] } else { buffer[i] }
        }),
    decreases k,
{
    if k > 0 {
        lemma_read_prefix(disk, cursor, length, buffer, plan, k - 1);
        lemma_plan_steps(cursor, length, plan, k);
        lemma_chunk_in_disk(cursor, length, plan, k - 1, disk.len());
        let c = plan[k - 1];
        assert(plan.take(k).drop_last() =~= plan.take(k - 1));
        assert(plan.take(k).last() == c);
        let before = read_through(disk, buffer, plan.take(k - 1));
        let r = read_through(disk, buffer, plan.take(k));
        assert(r == copied_from_sector(before, sector_of(disk, c.sector), c));
        assert forall|i: int| 0 <= i < length implies #[trigger] r[i] == if i < done_before(length, plan, k) { disk[cursor + i] } else { buffer[i] } by {
            if c.buffer_offset <= i < c.buffer_offset + c.length {
                assert(r[i] == sector_of(disk, c.sector)[i - c.buffer_offset + c.sector_offset]);
            } else {
                assert(r[i] == before[i]);
            }
        }
    }
}

proof fn lemma_write_prefix(disk: Seq<u8>, cursor: u64, length: usize, data: Seq<u8>, plan: Seq<Chunk>, k: int)
    requires
        is_plan(cursor, length, plan),
        transfer_fits(cursor, length, disk.len()),
        data.len() == length,
        0 <= k <= plan.len(),
    ensures
        ({
            let w = write_through(disk, data, plan.take(k));
            let end = if k == 0 { 0 } else { done_before(length, plan, k) };
            &&& w.len() == disk.len()
            &&& forall|j: int| 0 <= j < disk.len() ==> #[trigger] w[j] == if cursor <= j < cursor + end { data[j - cursor] } else { disk[j] }
        }),
    decreases k,
{
    if k > 0 {
        lemma_write_prefix(disk, cursor, length, data, plan, k - 1);
        lemma_plan_steps(cursor, length, plan, k);
        lemma_chunk_in_disk(cursor, length, plan, k - 1, disk.len());
        let c = plan[k - 1];
        assert(plan.take(k).drop_last() =~= plan.take(k - 1));
        assert(plan.take(k).last() == c);
        let before = write_through(disk, data, plan.take(k - 1));
        let base: int = c.sector * SECTOR_SIZE;
        let sector = copied_into_sector(sector_of(before, c.sector), data, c);
        let w = write_through(disk, data, plan.take(k));
        assert(w == with_sector(before, c.sector, sector));
        assert forall|j: int| 0 <= j < disk.len() implies #[trigger] w[j] == if cursor <= j < cursor + done_before(length, plan, k) { data[j - cursor] } else { disk[j] } by {
            if base <= j < base + SECTOR_SIZE {
                let t = j - base;
                assert(sector_of(before, c.sector)[t] == before[j]);
                assert(w[j] == sector[t]);
            } else {
                assert(w[j] == before[j]);
            }
        }
    }
}

/// Reading `length` bytes at `cursor`, sector by sector along a plan of the
/// transfer, fills the buffer with exactly the device's bytes from `cursor`
/// on.
pub proof fn read_gives_device_bytes(disk: Seq<u8>, cursor: u64, length: usize, buffer: Seq<u8>, plan: Seq<Chunk>)
    requires
        is_plan(cursor, length, plan),
        transfer_fits(cursor, length, disk.len()),
        buffer.len() == length,
    ensures
        read_through(disk, buffer, plan) == disk.subrange(cursor as int, cursor + length),
{
    lemma_read_prefix(disk, cursor, length, buffer, plan, plan.len() as int);
    assert(plan.take(plan.len() as int) =~= plan);
    if plan.len() == 0 {
        assert(length == 0);
    }
    assert(read_through(disk, buffer, plan) =~= disk.subrange(cursor as int, cursor + length));
}

/// Writing `data` at `cursor`, sector by sector along a plan of the
/// transfer, puts `data` in place of the device's bytes from `cursor` on and
/// leaves every other byte as it was.
pub proof fn write_replaces_device_bytes(disk: Seq<u8>, cursor: u64, length: usize, data: Seq<u8>, plan: Seq<Chunk>)
    requires
        is_plan(cursor, length, plan),
        transfer_fits(cursor, length, disk.len()),
        data.len() == length,
    ensures
        write_through(disk, data, plan) == disk.subrange(0, cursor as int) + data + disk.subrange(cursor + length, disk.len() as int),
{
    lemma_write_prefix(disk, cursor, length, data, plan, plan.len() as int);
    assert(plan.take(plan.len() as int) =~= plan);
    if plan.len() == 0 {
        assert(length == 0);
    }
    assert(write_through(disk, data, plan) =~= disk.subrange(0, cursor as int) + data + disk.subrange(cursor + length, disk.len() as int));
}

/// What is written at a position is what a read there gives back.
pub proof fn write_then_read_gives_data(
    disk: Seq<u8>,
    cursor: u64,
    length: usize,
    data: Seq<u8>,
    buffer: Seq<u8>,
    write_plan: Seq<Chunk>,
    read_plan: Seq<Chunk>,
)
    requires
        is_plan(cursor, length, write_plan),
        is_plan(cursor, length, read_plan),
        transfer_fits(cursor, length, disk.len()),
        data.len() == length,
        buffer.len() == length,
    ensures
        read_through(write_through(disk, data, write_plan), buffer, read_plan) == data,
{
    write_replaces_device_bytes(disk, cursor, length, data, write_plan);
    let written = write_through(disk, data, write_plan);
    assert(written.len() == disk.len());
    read_gives_device_bytes(written, cursor, length, buffer, read_plan);
    assert(written.subrange(cursor as int, cursor + length) =~= data);
}

} // verus!
