use rvkernel::boot::{hart_start_order, heap_bounds};
use rvkernel::devices::{node_kind, NodeKind};
use rvkernel::ext4_block_device::{current_time_seconds, first_sector, sectors_per_block, total_blocks};
use rvkernel::libraries::thread_utils::Semaphore;
use rvkernel::virtio_fatfs::{copy_from_sector, copy_into_sector, plan_transfer, seek, Chunk, SeekFrom, SECTOR_SIZE};
use rvkernel::virtio_hal::VirtIOHal;

fn spans(plan: &[Chunk]) -> Vec<(usize, usize, usize, usize)> {
    plan.iter().map(|c| (c.sector, c.sector_offset, c.buffer_offset, c.length)).collect()
}

#[test]
fn transfer_within_one_sector() {
    assert_eq!(spans(&plan_transfer(10, 20)), vec![(0, 10, 0, 20)]);
    assert!(plan_transfer(1000, 0).is_empty());
}

#[test]
fn transfer_across_sectors() {
    let plan = plan_transfer(500, 1100);
    assert_eq!(spans(&plan), vec![(0, 500, 0, 12), (1, 0, 12, 512), (2, 0, 524, 512), (3, 0, 1036, 64)]);
    let total: usize = plan.iter().map(|c| c.length).sum();
    assert_eq!(total, 1100);
}

#[test]
fn copies_between_sector_and_buffer() {
    let sector: Vec<u8> = (0..SECTOR_SIZE).map(|i| (i % 256) as u8).collect();
    let mut buffer = vec![0xffu8; 8];
    let chunk = Chunk { sector: 0, sector_offset: 510, buffer_offset: 3, length: 2 };
    copy_from_sector(&mut buffer, &sector, &chunk);
    assert_eq!(buffer, vec![0xff, 0xff, 0xff, 254, 255, 0xff, 0xff, 0xff]);
    let mut target = vec![0u8; SECTOR_SIZE];
    let chunk = Chunk { sector: 0, sector_offset: 1, buffer_offset: 0, length: 3 };
    copy_into_sector(&mut target, &[7, 8, 9, 10], &chunk);
    assert_eq!(&target[0..5], &[0, 7, 8, 9, 0]);
}

#[test]
fn seeking() {
    assert_eq!(seek(100, 4, SeekFrom::Start(7)), 7);
    assert_eq!(seek(100, 4, SeekFrom::End(-48)), 2000);
    assert_eq!(seek(100, 4, SeekFrom::Current(-1)), 99);
    assert_eq!(seek(0, 4, SeekFrom::Current(-1)), u64::MAX);
}

#[test]
fn ext4_geometry() {
    assert_eq!(sectors_per_block(), 8);
    assert_eq!(first_sector(3, 8), 24);
    assert_eq!(total_blocks(1001, 8), 125);
    assert_eq!(current_time_seconds(Some(1_700_000_000)), 1_700_000_000);
    assert_eq!(current_time_seconds(None), 0);
    assert_eq!(current_time_seconds(Some(u64::MAX)), -1);
}

#[test]
fn semaphore_counts() {
    assert_eq!(Semaphore::wait(2), Some(1));
    assert_eq!(Semaphore::wait(0), None);
    assert_eq!(Semaphore::post(0), 1);
    assert_eq!(Semaphore::wait(Semaphore::post(5)), Some(5));
}

#[test]
fn harts_start_in_order_with_boot_hart_last() {
    assert_eq!(hart_start_order(&vec![0, 1, 2, 3], 2), vec![(0, false), (1, false), (3, false), (2, true)]);
    assert_eq!(hart_start_order(&vec![], 0), vec![(0, true)]);
    assert_eq!(heap_bounds(0x8020_0000, 0x8000_0000, 0x0800_0000), (0x8020_0000, 0x8800_0000));
}

#[test]
fn device_tree_nodes() {
    assert!(node_kind("virtio_mmio@10001000") == NodeKind::VirtioMmio);
    assert!(node_kind("rtc@101000") == NodeKind::Rtc);
    assert!(node_kind("uart@10000000") == NodeKind::Other);
    assert!(node_kind("virtio") == NodeKind::Other);
}

#[test]
fn dma_sizes() {
    assert_eq!(VirtIOHal::dma_size(3), 12288);
}

fn disk_read(disk: &[u8], cursor: u64, buffer: &mut [u8]) {
    for chunk in plan_transfer(cursor, buffer.len()) {
        let start = chunk.sector * SECTOR_SIZE;
        copy_from_sector(buffer, &disk[start..start + SECTOR_SIZE], &chunk);
    }
}

fn disk_write(disk: &mut [u8], cursor: u64, data: &[u8]) {
    for chunk in plan_transfer(cursor, data.len()) {
        let start = chunk.sector * SECTOR_SIZE;
        let mut sector = disk[start..start + SECTOR_SIZE].to_vec();
        copy_into_sector(&mut sector, data, &chunk);
        disk[start..start + SECTOR_SIZE].copy_from_slice(&sector);
    }
}

#[test]
fn read_returns_device_bytes() {
    let disk: Vec<u8> = (0..4 * SECTOR_SIZE).map(|i| (i * 7 % 251) as u8).collect();
    let mut buffer = vec![0u8; 700];
    disk_read(&disk, 300, &mut buffer);
    assert_eq!(&buffer[..], &disk[300..1000]);
}

#[test]
fn write_then_read_returns_data() {
    let mut disk: Vec<u8> = (0..4 * SECTOR_SIZE).map(|i| (i % 256) as u8).collect();
    let original = disk.clone();
    let data: Vec<u8> = (0..900).map(|i| (255 - i % 256) as u8).collect();
    disk_write(&mut disk, 100, &data);
    assert_eq!(&disk[..100], &original[..100]);
    assert_eq!(&disk[100..1000], &data[..]);
    assert_eq!(&disk[1000..], &original[1000..]);
    let mut buffer = vec![0u8; 900];
    disk_read(&disk, 100, &mut buffer);
    assert_eq!(buffer, data);
}
