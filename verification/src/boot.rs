use vstd::prelude::*;
use crate::device_tree::DeviceTree;

verus! {

/// Every hart of the list but the booting one, in order, each marked as not
/// the booting hart.
pub open spec fn other_harts(cpu_ids: Seq<usize>, boot_hart: usize) -> Seq<(usize, bool)>
    decreases cpu_ids.len(),
{
    if cpu_ids.len() == 0 {
        Seq::empty()
    } else {
        let rest = other_harts(cpu_ids.drop_last(), boot_hart);
        if cpu_ids.last() != boot_hart {
            rest.push((cpu_ids.last(), false))
        } else {
            rest
        }
    }
}

/// The harts to bring up, in order, each with whether it is the hart that
/// booted: every other hart as the device tree lists them, then the booting
/// hart last.
pub open spec fn start_order(cpu_ids: Seq<usize>, boot_hart: usize) -> Seq<(usize, bool)> {
    other_harts(cpu_ids, boot_hart).push((boot_hart, true))
}

/// The order in which the harts are started (see `start_order`).
pub fn hart_start_order(cpu_ids: &Vec<usize>, boot_hart: usize) -> (order: Vec<(usize, bool)>)
    ensures
        order@ == start_order(cpu_ids@, boot_hart),
{
    let mut order: Vec<(usize, bool)> = Vec::new();
    let mut i: usize = 0;
    while i < cpu_ids.len()
        invariant
            i <= cpu_ids@.len(),
            order@ == other_harts(cpu_ids@.take(i as int), boot_hart),
        decreases cpu_ids@.len() - i,
    {
        let id = cpu_ids[i];
        assert(cpu_ids@.take(i + 1).drop_last() =~= cpu_ids@.take(i as int));
        if id != boot_hart {
            order.push((id, false));
        }
        i = i + 1;
    }
    assert(cpu_ids@.take(i as int) =~= cpu_ids@);
    order.push((boot_hart, true));
    order
}

/// The heap the kernel hands to its allocator: from the end of the kernel
/// image to the end of system memory.
pub fn heap_bounds(kernel_end: usize, memory_base: usize, memory_size: usize) -> (bounds: (usize, usize))
    requires
        memory_base + memory_size <= usize::MAX,
    ensures
        bounds == (kernel_end, (memory_base + memory_size) as usize),
{
    (kernel_end, memory_base + memory_size)
}

proof fn lemma_other_harts(cpu_ids: Seq<usize>, boot_hart: usize)
    ensures
        forall|i: int| 0 <= i < other_harts(cpu_ids, boot_hart).len() ==> {
            let (id, booted) = #[trigger] other_harts(cpu_ids, boot_hart)[i];
            &&& id != boot_hart
            &&& !booted
            &&& cpu_ids.contains(id)
        },
        forall|j: int| 0 <= j < cpu_ids.len() && #[trigger] cpu_ids[j] != boot_hart
            ==> other_harts(cpu_ids, boot_hart).contains((cpu_ids[j], false)),
    decreases cpu_ids.len(),
{
    if cpu_ids.len() > 0 {
        let init = cpu_ids.drop_last();
        lemma_other_harts(init, boot_hart);
        let rest = other_harts(init, boot_hart);
        assert forall|i: int| 0 <= i < other_harts(cpu_ids, boot_hart).len() implies {
            let (id, booted) = #[trigger] other_harts(cpu_ids, boot_hart)[i];
            &&& id != boot_hart
            &&& !booted
            &&& cpu_ids.contains(id)
        } by {
            if i < rest.len() {
                assert(other_harts(cpu_ids, boot_hart)[i] == rest[i]);
                let id = rest[i].0;
                assert(init.contains(id));
                let j = choose|j: int| 0 <= j < init.len() && init[j] == id;
                assert(cpu_ids[j] == id);
            } else {
                assert(cpu_ids[cpu_ids.len() - 1] == cpu_ids.last());
            }
        }
        assert forall|j: int| 0 <= j < cpu_ids.len() && #[trigger] cpu_ids[j] != boot_hart
            implies other_harts(cpu_ids, boot_hart).contains((cpu_ids[j], false)) by {
            if j < init.len() {
                assert(init[j] == cpu_ids[j]);
                let k = choose|k: int| 0 <= k < rest.len() && rest[k] == (init[j], false);
                if cpu_ids.last() != boot_hart {
                    assert(other_harts(cpu_ids, boot_hart)[k] == rest[k]);
                }
            } else {
                let all = other_harts(cpu_ids, boot_hart);
                assert(all[all.len() - 1] == (cpu_ids[j], false));
            }
        }
    }
}

/// Every listed hart but the booting one is started, as a secondary hart,
/// before the booting hart; the booting hart is started last, once.
pub proof fn booting_hart_starts_last(cpu_ids: Seq<usize>, boot_hart: usize)
    ensures
        ({
            let order = start_order(cpu_ids, boot_hart);
            &&& order.last() == (boot_hart, true)
            &&& forall|i: int| 0 <= i < order.len() - 1 ==> (#[trigger] order[i]).0 != boot_hart && !order[i].1
            &&& forall|j: int| 0 <= j < cpu_ids.len() && #[trigger] cpu_ids[j] != boot_hart
                ==> order.contains((cpu_ids[j], false))
        }),
{
    lemma_other_harts(cpu_ids, boot_hart);
    let others = other_harts(cpu_ids, boot_hart);
    let order = start_order(cpu_ids, boot_hart);
    assert forall|i: int| 0 <= i < order.len() - 1 implies (#[trigger] order[i]).0 != boot_hart && !order[i].1 by {
        assert(order[i] == others[i]);
    }
    assert forall|j: int| 0 <= j < cpu_ids.len() && #[trigger] cpu_ids[j] != boot_hart
        implies order.contains((cpu_ids[j], false)) by {
        let k = choose|k: int| 0 <= k < others.len() && others[k] == (cpu_ids[j], false);
        assert(order[k] == others[k]);
    }
}

/// How the kernel boots on a machine: the heap it hands to its allocator
/// and the order in which it starts the harts.
pub struct BootPlan {
    pub heap_start: usize,
    pub heap_end: usize,
    pub harts: Vec<(usize, bool)>,
}

/// The boot plan for the device tree: the heap runs from the end of the
/// kernel image to the end of the first memory region, and the harts start
/// in `start_order`; `None` when the tree gives no memory region or no size
/// for it.
pub fn boot_plan(tree: &DeviceTree, boot_hart: usize, kernel_end: usize) -> (plan: Option<BootPlan>)
    requires
        tree.memory_start matches Some(base) && tree.memory_size matches Some(size) ==> base + size <= usize::MAX,
    ensures
        plan is None <==> (tree.memory_start is None || tree.memory_size is None),
        plan matches Some(p) ==> {
            &&& p.heap_start == kernel_end
            &&& p.heap_end == tree.memory_start->0 + tree.memory_size->0
            &&& p.harts@ == start_order(tree.cpu_ids@, boot_hart)
        },
{
    match (tree.memory_start, tree.memory_size) {
        (Some(base), Some(size)) => {
            let (heap_start, heap_end) = heap_bounds(kernel_end, base, size);
            Some(BootPlan { heap_start, heap_end, harts: hart_start_order(&tree.cpu_ids, boot_hart) })
        },
        _ => None,
    }
}

} // verus!
