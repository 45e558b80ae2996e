use vstd::prelude::*;
use crate::text::str_chars;
use crate::device_tree::{DeviceNodeView, DeviceTree};

verus! {

/// What a device-tree node is to the kernel, by its name.
#[derive(PartialEq, Eq, Structural, Copy, Clone)]
pub enum NodeKind {
    /// A memory-mapped VirtIO transport.
    VirtioMmio,
    /// The Goldfish real-time clock.
    Rtc,
    /// Anything else, which is skipped.
    Other,
}

/// The kind of a node: its name starts with `virtio_mmio`, or else with
/// `rtc`, or neither.
pub open spec fn kind_of(name: Seq<char>) -> NodeKind {
    if "virtio_mmio"@.is_prefix_of(name) {
        NodeKind::VirtioMmio
    } else if "rtc"@.is_prefix_of(name) {
        NodeKind::Rtc
    } else {
        NodeKind::Other
    }
}

fn starts_with(name: &Vec<char>, prefix: &Vec<char>) -> (b: bool)
    ensures
        b == prefix@.is_prefix_of(name@),
{
    if prefix.len() > name.len() {
        return false;
    }
    let mut i: usize = 0;
    while i < prefix.len()
        invariant
            prefix@.len() <= name@.len(),
            i <= prefix@.len(),
            forall|j: int| 0 <= j < i ==> prefix@[j] == name@[j],
        decreases prefix@.len() - i,
    {
        if prefix[i] != name[i] {
            return false;
        }
        i = i + 1;
    }
    assert(prefix@ =~= name@.subrange(0, prefix@.len() as int));
    true
}

/// The kind of the device-tree node with this name (see `kind_of`).
pub fn node_kind(name: &str) -> (kind: NodeKind)
    ensures
        kind == kind_of(name@),
{
    let chars = str_chars(name);
    if starts_with(&chars, &str_chars("virtio_mmio")) {
        NodeKind::VirtioMmio
    } else if starts_with(&chars, &str_chars("rtc")) {
        NodeKind::Rtc
    } else {
        NodeKind::Other
    }
}

/// The kind of VirtIO device behind a transport, as far as the kernel
/// tells them apart.
#[derive(PartialEq, Eq, Structural, Copy, Clone)]
pub enum VirtioKind {
    Block,
    Console,
    Other,
}

/// What to do with a VirtIO device found in the device tree.
#[derive(PartialEq, Eq, Structural, Copy, Clone)]
pub enum DeviceAction {
    /// Add it to the block devices.
    AddBlockDevice,
    /// Make it the console.
    InstallConsole,
    /// Leave it alone.
    Skip,
}

/// Block devices are all kept; the first console becomes the console; other
/// devices are left alone. A second console is an error that the caller
/// must not bring here.
pub fn device_action(kind: VirtioKind, console_installed: bool) -> (action: DeviceAction)
    requires
        !(kind == VirtioKind::Console && console_installed),
    ensures
        action == match kind {
            VirtioKind::Block => DeviceAction::AddBlockDevice,
            VirtioKind::Console => DeviceAction::InstallConsole,
            VirtioKind::Other => DeviceAction::Skip,
        },
{
    match kind {
        VirtioKind::Block => DeviceAction::AddBlockDevice,
        VirtioKind::Console => DeviceAction::InstallConsole,
        VirtioKind::Other => DeviceAction::Skip,
    }
}

/// A device the kernel takes over from the device tree.
#[derive(PartialEq, Eq, Structural, Copy, Clone)]
pub enum DevicePlan {
    /// A VirtIO transport at this address and size, with its first interrupt.
    Virtio { address: usize, size: usize, interrupt: Option<usize> },
    /// The real-time clock at this address.
    Rtc { address: usize },
}

/// Whether the node carries what the kernel reads of it: a `reg` region
/// with a size for a VirtIO transport, a `reg` address for the clock.
pub open spec fn node_usable(node: DeviceNodeView) -> bool {
    match kind_of(node.name) {
        NodeKind::VirtioMmio => node.reg_start is Some && node.reg_size is Some,
        NodeKind::Rtc => node.reg_start is Some,
        NodeKind::Other => true,
    }
}

/// The devices of the nodes, in the order of the tree: each VirtIO
/// transport and each real-time clock; other nodes are skipped.
pub open spec fn devices_of(nodes: Seq<DeviceNodeView>) -> Seq<DevicePlan>
    decreases nodes.len(),
{
    if nodes.len() == 0 {
        Seq::empty()
    } else {
        let rest = devices_of(nodes.drop_last());
        let node = nodes.last();
        match kind_of(node.name) {
            NodeKind::VirtioMmio => match (node.reg_start, node.reg_size) {
                (Some(address), Some(size)) => rest.push(DevicePlan::Virtio { address, size, interrupt: node.interrupt }),
                _ => rest,
            },
            NodeKind::Rtc => match node.reg_start {
                Some(address) => rest.push(DevicePlan::Rtc { address }),
                None => rest,
            },
            NodeKind::Other => rest,
        }
    }
}

/// The devices to take over from the device tree (see `devices_of`).
pub fn device_plan(tree: &DeviceTree) -> (plan: Vec<DevicePlan>)
    requires
        forall|i: int| 0 <= i < tree@.nodes.len() ==> node_usable(#[trigger] tree@.nodes[i]),
    ensures
        plan@ == devices_of(tree@.nodes),
{
    let mut plan: Vec<DevicePlan> = Vec::new();
    let mut i: usize = 0;
    while i < tree.nodes.len()
        invariant
            i <= tree@.nodes.len(),
            forall|j: int| 0 <= j < tree@.nodes.len() ==> node_usable(#[trigger] tree@.nodes[j]),
            plan@ == devices_of(tree@.nodes.take(i as int)),
        decreases tree@.nodes.len() - i,
    {
        let node = &tree.nodes[i];
        assert(tree@.nodes[i as int] == node@);
        assert(tree@.nodes.take(i + 1).drop_last() =~= tree@.nodes.take(i as int));
        assert(tree@.nodes.take(i + 1).last() == node@);
        assert(node_usable(node@));
        match node_kind(node.name.as_str()) {
            NodeKind::VirtioMmio => {
                plan.push(DevicePlan::Virtio { address: node.reg_start.unwrap(), size: node.reg_size.unwrap(), interrupt: node.interrupt });
            },
            NodeKind::Rtc => {
                plan.push(DevicePlan::Rtc { address: node.reg_start.unwrap() });
            },
            NodeKind::Other => {},
        }
        i = i + 1;
    }
    assert(tree@.nodes.take(i as int) =~= tree@.nodes);
    plan
}

} // verus!
