use rvkernel::boot::boot_plan;
use rvkernel::devices::{device_plan, DevicePlan};
use rvkernel::device_tree::{blob_size, get_device_tree};
use rvkernel::device_tree_format::check_blob;

struct Blob {
    structure: Vec<u8>,
    strings: Vec<u8>,
}

impl Blob {
    fn word(&mut self, w: u32) {
        self.structure.extend_from_slice(&w.to_be_bytes());
    }
    fn begin(&mut self, name: &str) {
        self.word(1);
        self.structure.extend_from_slice(name.as_bytes());
        self.structure.push(0);
        while self.structure.len() % 4 != 0 {
            self.structure.push(0);
        }
    }
    fn end(&mut self) {
        self.word(2);
    }
    fn prop(&mut self, name: &str, value: &[u32]) {
        let offset = self.strings.len() as u32;
        self.strings.extend_from_slice(name.as_bytes());
        self.strings.push(0);
        self.word(3);
        self.word((value.len() * 4) as u32);
        self.word(offset);
        for v in value {
            self.word(*v);
        }
    }
    fn finish(mut self) -> Vec<u8> {
        self.word(5);
        let header_len = 40u32;
        let reserve = 16u32;
        let off_struct = header_len + reserve;
        let off_strings = off_struct + self.structure.len() as u32;
        let total = off_strings + self.strings.len() as u32;
        let mut out = Vec::new();
        for w in [0xd00d_feed, total, off_struct, off_strings, header_len, 17, 16, 0, self.strings.len() as u32, self.structure.len() as u32] {
            out.extend_from_slice(&u32::to_be_bytes(w));
        }
        out.extend_from_slice(&[0u8; 16]);
        out.extend_from_slice(&self.structure);
        out.extend_from_slice(&self.strings);
        out
    }
}

fn sample() -> Vec<u8> {
    let mut b = Blob { structure: Vec::new(), strings: Vec::new() };
    b.begin("");
    b.prop("#address-cells", &[2]);
    b.prop("#size-cells", &[2]);
    b.begin("memory@80000000");
    b.prop("reg", &[0, 0x8000_0000, 0, 0x0800_0000]);
    b.end();
    b.begin("cpus");
    b.prop("#address-cells", &[1]);
    b.prop("#size-cells", &[0]);
    b.begin("cpu@0");
    b.prop("reg", &[0]);
    b.end();
    b.begin("cpu@1");
    b.prop("reg", &[1]);
    b.end();
    b.end();
    b.begin("virtio_mmio@10001000");
    b.prop("reg", &[0, 0x1000_1000, 0, 0x1000]);
    b.end();
    b.begin("rtc@101000");
    b.prop("reg", &[0, 0x10_1000, 0, 0x1000]);
    b.end();
    b.begin("uart@10000000");
    b.end();
    b.end();
    b.finish()
}

#[test]
fn header_size_is_big_endian() {
    assert_eq!(blob_size(&[0xd0, 0x0d, 0xfe, 0xed, 0x00, 0x01, 0x02, 0x03]), 0x0001_0203);
}

#[test]
fn parses_memory_cpus_and_nodes() {
    let blob = sample();
    let tree = get_device_tree(&blob).expect("the sample parses");
    assert_eq!(tree.memory_start, Some(0x8000_0000));
    assert_eq!(tree.memory_size, Some(0x0800_0000));
    assert_eq!(tree.cpu_ids, vec![0, 1]);
    let names: Vec<&str> = tree.nodes.iter().map(|n| n.name.as_str()).collect();
    assert!(names.contains(&"virtio_mmio@10001000"));
    assert!(names.contains(&"rtc@101000"));
    let plan = device_plan(&tree);
    assert!(plan == vec![DevicePlan::Virtio { address: 0x1000_1000, size: 0x1000, interrupt: None }, DevicePlan::Rtc { address: 0x10_1000 }]);
    let boot = boot_plan(&tree, 1, 0x8020_0000).expect("memory is known");
    assert_eq!((boot.heap_start, boot.heap_end), (0x8020_0000, 0x8800_0000));
    assert_eq!(boot.harts, vec![(0, false), (1, true)]);
}

#[test]
fn rejects_bad_or_cut_blobs() {
    let mut blob = sample();
    let cut = blob[..blob.len() - 1].to_vec();
    assert!(get_device_tree(&cut).is_none());
    blob[0] = 0;
    assert!(get_device_tree(&blob).is_none());
}

fn tree_with(memory: bool, cpu_reg: bool, cpus_cells: u32) -> Vec<u8> {
    let mut b = Blob { structure: Vec::new(), strings: Vec::new() };
    b.begin("");
    if memory {
        b.begin("memory@80000000");
        b.prop("reg", &[0, 0x8000_0000, 0x0800_0000]);
        b.end();
    }
    b.begin("cpus");
    b.prop("#address-cells", &[cpus_cells]);
    b.begin("cpu@0");
    if cpu_reg {
        b.prop("reg", &[0, 0]);
    }
    b.begin("interrupt-controller");
    b.end();
    b.end();
    b.end();
    b.end();
    b.finish()
}

#[test]
fn well_formed_blobs_pass_the_check() {
    assert!(check_blob(&sample()));
    assert!(check_blob(&tree_with(true, true, 1)));
    assert!(check_blob(&tree_with(true, true, 2)));
    let tree = get_device_tree(&tree_with(true, true, 2)).expect("parses");
    assert_eq!(tree.cpu_ids, vec![0]);
    assert_eq!(tree.memory_start, Some(0x8000_0000));
}

#[test]
fn trees_the_parser_would_fault_on_are_refused() {
    assert!(!check_blob(&tree_with(false, true, 1)));
    assert!(get_device_tree(&tree_with(false, true, 1)).is_none());
    assert!(!check_blob(&tree_with(true, false, 1)));
    assert!(get_device_tree(&tree_with(true, false, 1)).is_none());
    assert!(!check_blob(&tree_with(true, true, 3)));
    let mut b = Blob { structure: Vec::new(), strings: Vec::new() };
    b.begin("");
    b.begin("memory");
    b.prop("reg", &[0, 0x8000_0000, 0x0800_0000]);
    b.end();
    b.begin("cpus");
    b.end();
    let unbalanced = b.finish();
    assert!(!check_blob(&unbalanced));
    assert!(get_device_tree(&unbalanced).is_none());
}
