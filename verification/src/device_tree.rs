use vstd::prelude::*;
use fdt::standard_nodes::MemoryRegion;
use fdt::Fdt;
use crate::device_tree_format::{blob_well_formed, check_blob};

verus! {

/// A node of the flattened device tree, as far as the kernel reads it: its
/// name, the start address and size of its first `reg` region (a size only
/// where the region has one) and its first interrupt.
pub struct DeviceNode {
    pub name: String,
    pub reg_start: Option<usize>,
    pub reg_size: Option<usize>,
    pub interrupt: Option<usize>,
}

/// A `DeviceNode` with its name taken by its characters.
pub struct DeviceNodeView {
    pub name: Seq<char>,
    pub reg_start: Option<usize>,
    pub reg_size: Option<usize>,
    pub interrupt: Option<usize>,
}

impl View for DeviceNode {
    type V = DeviceNodeView;

    open spec fn view(&self) -> DeviceNodeView {
        DeviceNodeView {
            name: self.name@,
            reg_start: self.reg_start,
            reg_size: self.reg_size,
            interrupt: self.interrupt,
        }
    }
}

/// What the kernel reads of a device tree: the start address and size of
/// the first region of `/memory` (a size only where the region has one), the
/// first id of each CPU, and every node in the order of the tree.
pub struct DeviceTree {
    pub memory_start: Option<usize>,
    pub memory_size: Option<usize>,
    pub cpu_ids: Vec<usize>,
    pub nodes: Vec<DeviceNode>,
}

/// A `DeviceTree` taken by its views.
pub struct DeviceTreeView {
    pub memory_start: Option<usize>,
    pub memory_size: Option<usize>,
    pub cpu_ids: Seq<usize>,
    pub nodes: Seq<DeviceNodeView>,
}

impl View for DeviceTree {
    type V = DeviceTreeView;

    open spec fn view(&self) -> DeviceTreeView {
        DeviceTreeView {
            memory_start: self.memory_start,
            memory_size: self.memory_size,
            cpu_ids: self.cpu_ids@,
            nodes: self.nodes@.map_values(|n: DeviceNode| n@),
        }
    }
}

/// What the `fdt` crate reads from a flattened device tree blob (see
/// `DeviceTree`), or `None` where `fdt::Fdt::new` rejects the blob.
pub uninterp spec fn parsed_device_tree(blob: Seq<u8>) -> Option<DeviceTreeView>;

/// `fdt::Fdt::new`, then the first `/memory` region, the first id of each
/// CPU, and the name, first `reg` region and first interrupt of every node.
/// The result is the one `parsed_device_tree` names. The `fdt` crate checks
/// only the header's magic number and size, and panics while walking a tree
/// that is not well formed; `blob_well_formed` describes the trees it walks
/// without fault, and only those are handed to it.
#[verifier::external_body]
fn parse_device_tree(blob: &[u8]) -> (t: Option<DeviceTree>)
    requires
        blob_well_formed(blob@),
    ensures
        t matches Some(x) ==> parsed_device_tree(blob@) == Some(x@),
        t is None <==> parsed_device_tree(blob@) is None,
{
    let fdt = Fdt::new(blob).ok()?;
    let span = |r: Option<MemoryRegion>| (r.map(|r| r.starting_address as usize), r.and_then(|r| r.size));
    let (memory_start, memory_size) = span(fdt.memory().regions().next());
    Some(DeviceTree { memory_start, memory_size, cpu_ids: fdt.cpus().map(|c| c.ids().first()).collect(), nodes: fdt.all_nodes().map(|n| {
        let (reg_start, reg_size) = span(n.reg().into_iter().flatten().next());
        DeviceNode { name: n.name.into(), reg_start, reg_size, interrupt: n.interrupts().into_iter().flatten().next() }
    }).collect() })
}

/// The big-endian 32-bit number in bytes 4 to 8: the `totalsize` field of a
/// device-tree header.
pub open spec fn header_total_size(header: Seq<u8>) -> int {
    header[4] as int * 0x100_0000 + header[5] as int * 0x1_0000 + header[6] as int * 0x100 + header[7] as int
}

/// The size in bytes of the device-tree blob whose header starts `header`.
pub fn blob_size(header: &[u8]) -> (n: usize)
    requires
        header@.len() >= 8,
    ensures
        n == header_total_size(header@),
{
    let size: u32 = header[4] as u32 * 0x100_0000 + header[5] as u32 * 0x1_0000 + header[6] as u32 * 0x100 + header[7] as u32;
    size as usize
}

/// The device tree held at the start of `memory`: the blob is as long as its
/// header says, and must lie within `memory` and be well formed (see
/// `blob_well_formed`); `None` when it is not, or when the `fdt` crate
/// rejects it.
pub fn get_device_tree(memory: &[u8]) -> (t: Option<DeviceTree>)
    requires
        memory@.len() >= 8,
    ensures
        ({
            let n = header_total_size(memory@);
            if n > memory@.len() || !blob_well_formed(memory@.subrange(0, n)) {
                t is None
            } else {
                &&& t matches Some(x) ==> parsed_device_tree(memory@.subrange(0, n)) == Some(x@)
                &&& t is None <==> parsed_device_tree(memory@.subrange(0, n)) is None
            }
        }),
{
    let n = blob_size(memory);
    if n > memory.len() {
        None
    } else {
        let blob = vstd::slice::slice_subrange(memory, 0, n);
        if check_blob(blob) {
            parse_device_tree(blob)
        } else {
            None
        }
    }
}

} // verus!
