use vstd::prelude::*;

verus! {

/// Bytes in one sector of a block device.
pub const SECTOR_SIZE: usize = 512;

/// One step of a transfer between a byte buffer and a block device: `length`
/// bytes at `buffer_offset` in the buffer correspond to those at
/// `sector_offset` in sector `sector`.
#[derive(Copy, Clone)]
pub struct Chunk {
    pub sector: usize,
    pub sector_offset: usize,
    pub buffer_offset: usize,
    pub length: usize,
}

/// The chunk that starts `done` bytes into a transfer of `length` bytes at
/// byte position `cursor` of the device: up to the end of the sector that
/// holds position `cursor + done`, or to the end of the transfer if that
/// comes first.
pub open spec fn chunk_at(cursor: u64, length: usize, done: usize) -> Chunk {
    let position = cursor + done;
    let offset = (position % SECTOR_SIZE as int) as usize;
    let in_sector = (SECTOR_SIZE - offset) as usize;
    let left = (length - done) as usize;
    Chunk {
        sector: (position / SECTOR_SIZE as int) as usize,
        sector_offset: offset,
        buffer_offset: done,
        length: if in_sector < left { in_sector } else { left },
    }
}

/// The chunks split a transfer of `length` bytes at `cursor`: each is
/// `chunk_at` its buffer offset, the first starts at 0, each starts where
/// the one before ended, and the last ends at `length`.
pub open spec fn is_plan(cursor: u64, length: usize, plan: Seq<Chunk>) -> bool {
    &&& forall|i: int| 0 <= i < plan.len() ==> #[trigger] plan[i] == chunk_at(cursor, length, plan[i].buffer_offset)
    &&& forall|i: int| 0 <= i < plan.len() ==> (#[trigger] plan[i]).buffer_offset < length
    &&& plan.len() > 0 ==> plan[0].buffer_offset == 0
    &&& forall|i: int| 0 <= i < plan.len() - 1 ==> #[trigger] plan[i + 1].buffer_offset == plan[i].buffer_offset + plan[i].length
    &&& (if plan.len() == 0 { length == 0 } else { plan.last().buffer_offset + plan.last().length == length })
}

/// The sector-by-sector steps of a transfer of `length` bytes starting at
/// byte `cursor` of the device, in order.
pub fn plan_transfer(cursor: u64, length: usize) -> (plan: Vec<Chunk>)
    requires
        cursor + length <= u64::MAX,
    ensures
        is_plan(cursor, length, plan@),
{
    let mut plan: Vec<Chunk> = Vec::new();
    let mut done: usize = 0;
    while done < length
        invariant
            done <= length,
            cursor + length <= u64::MAX,
            forall|i: int| 0 <= i < plan@.len() ==> #[trigger] plan@[i] == chunk_at(cursor, length, plan@[i].buffer_offset),
            forall|i: int| 0 <= i < plan@.len() ==> (#[trigger] plan@[i]).buffer_offset < length,
            plan@.len() > 0 ==> plan@[0].buffer_offset == 0,
            forall|i: int| 0 <= i < plan@.len() - 1 ==> #[trigger] plan@[i + 1].buffer_offset == plan@[i].buffer_offset + plan@[i].length,
            (if plan@.len() == 0 { done == 0 } else { plan@.last().buffer_offset + plan@.last().length == done }),
        decreases length - done,
    {
        let position = cursor + done as u64;
        let offset = (position % SECTOR_SIZE as u64) as usize;
        let in_sector = SECTOR_SIZE - offset;
        let left = length - done;
        let n = if in_sector < left { in_sector } else { left };
        let chunk = Chunk {
            sector: (position / SECTOR_SIZE as u64) as usize,
            sector_offset: offset,
            buffer_offset: done,
            length: n,
        };
        assert(chunk == chunk_at(cursor, length, done));
        let ghost before = plan@;
        plan.push(chunk);
        assert(plan@[plan@.len() - 1] == chunk);
        assert forall|i: int| 0 <= i < plan@.len() - 1 implies #[trigger] plan@[i + 1].buffer_offset == plan@[i].buffer_offset + plan@[i].length by {
            if i < before.len() - 1 {
                assert(plan@[i + 1] == before[i + 1]);
                assert(plan@[i] == before[i]);
            }
        }
        done = done + n;
    }
    plan
}

/// Whether the chunk lies within a sector buffer and a byte buffer of
/// `buffer_length` bytes.
pub open spec fn chunk_fits(chunk: Chunk, buffer_length: int) -> bool {
    &&& chunk.sector_offset + chunk.length <= SECTOR_SIZE
    &&& chunk.buffer_offset + chunk.length <= buffer_length
}

/// The buffer once the chunk's bytes of the sector are copied into it.
pub open spec fn copied_from_sector(buffer: Seq<u8>, sector: Seq<u8>, chunk: Chunk) -> Seq<u8> {
    Seq::new(buffer.len(), |i: int| if chunk.buffer_offset <= i < chunk.buffer_offset + chunk.length {
        sector[i - chunk.buffer_offset + chunk.sector_offset]
    } else {
        buffer[i]
    })
}

/// The sector once the chunk's bytes of the buffer are copied into it.
pub open spec fn copied_into_sector(sector: Seq<u8>, buffer: Seq<u8>, chunk: Chunk) -> Seq<u8> {
    Seq::new(sector.len(), |i: int| if chunk.sector_offset <= i < chunk.sector_offset + chunk.length {
        buffer[i - chunk.sector_offset + chunk.buffer_offset]
    } else {
        sector[i]
    })
}

/// Copies the chunk's bytes from the sector that was read into the buffer;
/// the rest of the buffer is left as it was.
pub fn copy_from_sector(buffer: &mut [u8], sector: &[u8], chunk: &Chunk)
    requires
        sector@.len() == SECTOR_SIZE,
        chunk_fits(*chunk, old(buffer)@.len() as int),
    ensures
        final(buffer)@ == copied_from_sector(old(buffer)@, sector@, *chunk),
{
    let buffer_length = buffer.len();
    let mut k: usize = 0;
    while k < chunk.length
        invariant
            k <= chunk.length,
            buffer_length == old(buffer)@.len(),
            sector@.len() == SECTOR_SIZE,
            chunk_fits(*chunk, old(buffer)@.len() as int),
            buffer@.len() == old(buffer)@.len(),
            forall|i: int| 0 <= i < old(buffer)@.len() ==> #[trigger] buffer@[i] == if chunk.buffer_offset <= i < chunk.buffer_offset + k {
                sector@[i - chunk.buffer_offset + chunk.sector_offset]
            } else {
                old(buffer)@[i]
            },
        decreases chunk.length - k,
    {
        buffer[chunk.buffer_offset + k] = sector[chunk.sector_offset + k];
        k = k + 1;
    }    assert(buffer@ =~= copied_from_sector(old(buffer)@, sector@, *chunk));
}

/// Copies the chunk's bytes from the buffer into the sector that was read,
/// to be written back; the rest of the sector is left as it was.
pub fn copy_into_sector(sector: &mut [u8], buffer: &[u8], chunk: &Chunk)
    requires
        old(sector)@.len() == SECTOR_SIZE,
        chunk_fits(*chunk, buffer@.len() as int),
    ensures
        final(sector)@ == copied_into_sector(old(sector)@, buffer@, *chunk),
{
    let buffer_length = buffer.len();
    let mut k: usize = 0;
    while k < chunk.length
        invariant
            k <= chunk.length,
            buffer_length == buffer@.len(),
            chunk_fits(*chunk, buffer@.len() as int),
            sector@.len() == SECTOR_SIZE,
            old(sector)@.len() == SECTOR_SIZE,
            forall|i: int| 0 <= i < SECTOR_SIZE ==> #[trigger] sector@[i] == if chunk.sector_offset <= i < chunk.sector_offset + k {
                buffer@[i - chunk.sector_offset + chunk.buffer_offset]
            } else {
                old(sector)@[i]
            },
        decreases chunk.length - k,
    {
        sector[chunk.sector_offset + k] = buffer[chunk.buffer_offset + k];
        k = k + 1;
    }    assert(sector@ =~= copied_into_sector(old(sector)@, buffer@, *chunk));
}

/// Where a seek is measured from.
#[derive(Copy, Clone)]
pub enum SeekFrom {
    Start(u64),
    End(i64),
    Current(i64),
}

/// The cursor after a seek on a device of `capacity` sectors whose cursor
/// stood at `cursor`: the offset from the start, from the end of the
/// device, or from the cursor; the signed sums are taken modulo 2^64.
pub open spec fn seek_target(cursor: u64, capacity: u64, pos: SeekFrom) -> u64 {
    match pos {
        SeekFrom::Start(offset) => offset,
        SeekFrom::End(offset) => (((capacity * SECTOR_SIZE) as i64) + offset) as u64,
        SeekFrom::Current(offset) => ((cursor as i64) + offset) as u64,
    }
}

/// Whether the seek's arithmetic stays in range: the device size fits in 64
/// bits and the signed sum does not overflow.
pub open spec fn seek_in_range(cursor: u64, capacity: u64, pos: SeekFrom) -> bool {
    match pos {
        SeekFrom::Start(_) => true,
        SeekFrom::End(offset) => capacity * SECTOR_SIZE <= u64::MAX
            && i64::MIN <= ((capacity * SECTOR_SIZE) as i64) + offset <= i64::MAX,
        SeekFrom::Current(offset) => i64::MIN <= (cursor as i64) + offset <= i64::MAX,
    }
}

/// Whether a seek's arithmetic stays in range (see `seek_in_range`).
pub fn seek_in_range_check(cursor: u64, capacity: u64, pos: SeekFrom) -> (ok: bool)
    ensures
        ok == seek_in_range(cursor, capacity, pos),
{
    match pos {
        SeekFrom::Start(_) => true,
        SeekFrom::End(offset) => match capacity.checked_mul(SECTOR_SIZE as u64) {
            Some(total) => (total as i64).checked_add(offset).is_some(),
            None => false,
        },
        SeekFrom::Current(offset) => (cursor as i64).checked_add(offset).is_some(),
    }
}

/// The cursor position after a seek (see `seek_target`).
pub fn seek(cursor: u64, capacity: u64, pos: SeekFrom) -> (target: u64)
    requires
        seek_in_range(cursor, capacity, pos),
    ensures
        target == seek_target(cursor, capacity, pos),
{
    match pos {
        SeekFrom::Start(offset) => offset,
        SeekFrom::End(offset) => {
            let total = capacity * SECTOR_SIZE as u64;
            (total as i64 + offset) as u64
        },
        SeekFrom::Current(offset) => (cursor as i64 + offset) as u64,
    }
}

/// The bytes the chunks move, in total.
pub open spec fn total_length(plan: Seq<Chunk>) -> int
    decreases plan.len(),
{
    if plan.len() == 0 {
        0
    } else {
        total_length(plan.drop_last()) + plan.last().length
    }
}

proof fn lemma_plan_prefix(cursor: u64, length: usize, plan: Seq<Chunk>, k: int)
    requires
        is_plan(cursor, length, plan),
        0 < k <= plan.len(),
    ensures
        total_length(plan.take(k)) == plan[k - 1].buffer_offset + plan[k - 1].length,
    decreases k,
{
    assert(plan.take(k).drop_last() =~= plan.take(k - 1));
    assert(plan.take(k).last() == plan[k - 1]);
    if k == 1 {
        assert(plan.take(0) =~= Seq::<Chunk>::empty());
        assert(total_length(Seq::<Chunk>::empty()) == 0);
        assert(plan[0].buffer_offset == 0);
    } else {
        lemma_plan_prefix(cursor, length, plan, k - 1);
        let i = k - 2;
        assert(plan[i + 1].buffer_offset == plan[i].buffer_offset + plan[i].length);
    }
}

/// A plan moves exactly the bytes of the transfer: the chunk lengths add up
/// to its length, and each chunk is non-empty and stays within one sector.
pub proof fn plan_covers_transfer(cursor: u64, length: usize, plan: Seq<Chunk>)
    requires
        is_plan(cursor, length, plan),
    ensures
        total_length(plan) == length,
        forall|i: int| 0 <= i < plan.len() ==> 0 < (#[trigger] plan[i]).length
            && plan[i].sector_offset + plan[i].length <= SECTOR_SIZE,
{
    if plan.len() > 0 {
        lemma_plan_prefix(cursor, length, plan, plan.len() as int);
        assert(plan.take(plan.len() as int) =~= plan);
    }
    assert forall|i: int| 0 <= i < plan.len() implies 0 < (#[trigger] plan[i]).length
        && plan[i].sector_offset + plan[i].length <= SECTOR_SIZE by {
        assert(plan[i] == chunk_at(cursor, length, plan[i].buffer_offset));
        assert(plan[i].buffer_offset < length);
    }
}

} // verus!
