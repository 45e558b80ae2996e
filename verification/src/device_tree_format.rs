use vstd::prelude::*;

verus! {

/// The big-endian 32-bit number at bytes `i..i + 4` of `s`.
pub open spec fn be32(s: Seq<u8>, i: int) -> int {
    s[i] as int * 0x100_0000 + s[i + 1] as int * 0x1_0000 + s[i + 2] as int * 0x100 + s[i + 3] as int
}

/// `n` rounded up to a multiple of four.
pub open spec fn align4(n: int) -> int {
    n + (4 - n % 4) % 4
}

/// The position of the first zero byte of `s` at or after `i`, where every
/// byte before it is ASCII; `None` where there is no such zero byte.
pub open spec fn ascii_cstr_end(s: Seq<u8>, i: int) -> Option<int>
    decreases s.len() - i,
{
    if i < 0 || i >= s.len() {
        None
    } else if s[i] == 0 {
        Some(i)
    } else if s[i] >= 0x80 {
        None
    } else {
        ascii_cstr_end(s, i + 1)
    }
}

/// The position of the first `@` of `s` in `i..end`, or `end`: where a node
/// name's unit address begins.
pub open spec fn unit_address_start(s: Seq<u8>, i: int, end: int) -> int
    decreases end - i,
{
    if i >= end {
        end
    } else if s[i] == 0x40 {
        i
    } else {
        unit_address_start(s, i + 1, end)
    }
}

pub open spec fn memory_name() -> Seq<u8> {
    seq![0x6du8, 0x65, 0x6d, 0x6f, 0x72, 0x79]
}

pub open spec fn cpus_name() -> Seq<u8> {
    seq![0x63u8, 0x70, 0x75, 0x73]
}

pub open spec fn cpu_name() -> Seq<u8> {
    seq![0x63u8, 0x70, 0x75]
}

pub open spec fn reg_name() -> Seq<u8> {
    seq![0x72u8, 0x65, 0x67]
}

pub open spec fn address_cells_name() -> Seq<u8> {
    seq![0x23u8, 0x61, 0x64, 0x64, 0x72, 0x65, 0x73, 0x73, 0x2d, 0x63, 0x65, 0x6c, 0x6c, 0x73]
}

pub open spec fn size_cells_name() -> Seq<u8> {
    seq![0x23u8, 0x73, 0x69, 0x7a, 0x65, 0x2d, 0x63, 0x65, 0x6c, 0x6c, 0x73]
}

pub const FDT_BEGIN_NODE: u32 = 1;
pub const FDT_END_NODE: u32 = 2;
pub const FDT_PROP: u32 = 3;
pub const FDT_END: u32 = 5;

/// The deepest nesting of nodes that the tree may have, the root counting
/// as one.
pub const MAX_DEPTH: usize = 63;

/// Where a scan of the structure block stands: how deep it is and whether
/// properties may follow, and what it has learnt of the root, of the first
/// `memory` node and of the first `cpus` node and its `cpu` children.
#[derive(Copy, Clone)]
pub struct ScanState {
    pub started: bool,
    pub ended: bool,
    pub depth: usize,
    pub props: bool,
    pub root_address_cells: u32,
    pub root_size_cells: u32,
    /// 0 before the first `memory` node, 1 inside it, 2 after it.
    pub memory: u8,
    pub memory_has_reg: bool,
    /// 0 before the first `cpus` node, 1 inside it, 2 after it.
    pub cpus: u8,
    pub cpus_address_cells: u32,
    pub in_cpu: bool,
    pub cpu_has_reg: bool,
}

/// The state before the first token.
pub open spec fn initial_scan() -> ScanState {
    ScanState {
        started: false,
        ended: false,
        depth: 0,
        props: false,
        root_address_cells: 2,
        root_size_cells: 1,
        memory: 0,
        memory_has_reg: false,
        cpus: 0,
        cpus_address_cells: 2,
        in_cpu: false,
        cpu_has_reg: false,
    }
}

/// A node begins at `p` of the structure block `s`: the state after its
/// name, and where its contents start.
pub open spec fn begin_step(s: Seq<u8>, st: ScanState, p: int) -> Option<(ScanState, int)> {
    match ascii_cstr_end(s, p + 4) {
        None => None,
        Some(z) => {
            let depth = st.depth + 1;
            let base = s.subrange(p + 4, unit_address_start(s, p + 4, z));
            let q = p + 4 + align4(z - (p + 4) + 1);
            if !(st.depth >= 1 || !st.started) || depth > MAX_DEPTH || (st.depth == 0 && z != p + 4) {
                None
            } else if depth == 3 && st.cpus == 1 && base == cpu_name() && !(st.cpus_address_cells == 1 || st.cpus_address_cells == 2) {
                None
            } else {
                Some((ScanState {
                    started: true,
                    depth: depth as usize,
                    props: true,
                    memory: if depth == 2 && st.memory == 0 && base == memory_name() { 1 } else { st.memory },
                    cpus: if depth == 2 && st.cpus == 0 && base == cpus_name() { 1 } else { st.cpus },
                    in_cpu: if depth == 3 { st.cpus == 1 && base == cpu_name() } else { st.in_cpu },
                    cpu_has_reg: if depth == 3 { false } else { st.cpu_has_reg },
                    ..st
                }, q))
            }
        },
    }
}

/// A node ends at `p`: the state after it.
pub open spec fn end_node_step(st: ScanState, p: int) -> Option<(ScanState, int)> {
    if st.depth == 0 || (st.depth == 3 && st.in_cpu && !st.cpu_has_reg) {
        None
    } else {
        Some((ScanState {
            depth: (st.depth - 1) as usize,
            props: false,
            in_cpu: if st.depth == 3 { false } else { st.in_cpu },
            memory: if st.depth == 2 && st.memory == 1 { 2 } else { st.memory },
            cpus: if st.depth == 2 && st.cpus == 1 { 2 } else { st.cpus },
            ..st
        }, p + 4))
    }
}

/// A property begins at `p` of the structure block `s`, its name in the
/// strings block `t`: the state after it, and where the next token starts.
pub open spec fn prop_step(s: Seq<u8>, t: Seq<u8>, st: ScanState, p: int) -> Option<(ScanState, int)> {
    if !st.props || st.depth == 0 || p + 12 > s.len() {
        None
    } else {
        let len = be32(s, p + 4);
        let off = be32(s, p + 8);
        if p + 12 + len > s.len() {
            None
        } else {
            match ascii_cstr_end(t, off) {
                None => None,
                Some(e) => {
                    let name = t.subrange(off, e);
                    let cells = name == address_cells_name() || name == size_cells_name();
                    if cells && len < 4 {
                        None
                    } else {
                        let v = if len >= 4 { be32(s, p + 12) } else { 0 };
                        let first_cpu_reg = st.depth == 3 && st.in_cpu && name == reg_name() && !st.cpu_has_reg;
                        if first_cpu_reg && len < 4 * st.cpus_address_cells {
                            None
                        } else {
                            Some((ScanState {
                                root_address_cells: if st.depth == 1 && name == address_cells_name() { v as u32 } else { st.root_address_cells },
                                root_size_cells: if st.depth == 1 && name == size_cells_name() { v as u32 } else { st.root_size_cells },
                                memory_has_reg: st.memory_has_reg || (st.depth == 2 && st.memory == 1 && name == reg_name()),
                                cpus_address_cells: if st.depth == 2 && st.cpus == 1 && name == address_cells_name() { v as u32 } else { st.cpus_address_cells },
                                cpu_has_reg: st.cpu_has_reg || first_cpu_reg,
                                ..st
                            }, p + 12 + align4(len)))
                        }
                    }
                },
            }
        }
    }
}

/// One token of the structure block at `p`: the state after it and where
/// the next one starts, or `None` where the token may not stand there.
pub open spec fn scan_step(s: Seq<u8>, t: Seq<u8>, st: ScanState, p: int) -> Option<(ScanState, int)> {
    if p < 0 || p + 4 > s.len() {
        None
    } else {
        let tok = be32(s, p);
        if tok == FDT_BEGIN_NODE {
            begin_step(s, st, p)
        } else if tok == FDT_END_NODE {
            end_node_step(st, p)
        } else if tok == FDT_PROP {
            prop_step(s, t, st, p)
        } else if tok == FDT_END && st.depth == 0 && st.started {
            Some((ScanState { ended: true, ..st }, p + 4))
        } else {
            None
        }
    }
}

/// What must hold once the tree has ended: the root's cells are at most
/// two, and the tree holds a `memory` node with a `reg` property and a `cpus`
/// node.
pub open spec fn scan_complete(st: ScanState) -> bool {
    &&& st.root_address_cells <= 2
    &&& st.root_size_cells <= 2
    &&& st.memory == 2
    &&& st.memory_has_reg
    &&& st.cpus == 2
}

/// Whether the tokens of `s` from `p` on, scanned from state `st`, form the
/// rest of a well-formed tree.
pub open spec fn scan_from(s: Seq<u8>, t: Seq<u8>, st: ScanState, p: int) -> bool
    decreases s.len() - p,
{
    if st.ended {
        scan_complete(st)
    } else {
        match scan_step(s, t, st, p) {
            None => false,
            Some((next, q)) => if p < q <= s.len() { scan_from(s, t, next, q) } else { false },
        }
    }
}

proof fn lemma_align4(n: int)
    requires
        n >= 0,
    ensures
        align4(n) % 4 == 0,
        n <= align4(n) < n + 4,
{
}

/// Tokens of the structure block start on 4-byte boundaries: from a token
/// at a multiple of four, the scan's next token is at a multiple of four
/// too. A property's value lies whole before the next token, with fewer
/// than four bytes of padding after it; a node's name and its terminating
/// zero byte likewise.
pub proof fn scan_steps_keep_tokens_aligned(s: Seq<u8>, t: Seq<u8>, st: ScanState, p: int)
    requires
        p % 4 == 0,
        scan_step(s, t, st, p) is Some,
    ensures
        ({
            let q = scan_step(s, t, st, p).unwrap().1;
            &&& q % 4 == 0
            &&& be32(s, p) == FDT_PROP ==> p + 12 + be32(s, p + 4) <= q < p + 12 + be32(s, p + 4) + 4
            &&& be32(s, p) == FDT_BEGIN_NODE ==> (ascii_cstr_end(s, p + 4) matches Some(z) && z + 1 <= q < z + 5 && s[z] == 0)
            &&& (be32(s, p) == FDT_END_NODE || be32(s, p) == FDT_END) ==> q == p + 4
        }),
{
    let tok = be32(s, p);
    if tok == FDT_PROP {
        lemma_align4(be32(s, p + 4));
    } else if tok == FDT_BEGIN_NODE {
        let z = ascii_cstr_end(s, p + 4)->0;
        lemma_cstr_end(s, p + 4);
        lemma_align4(z - (p + 4) + 1);
    }
}

proof fn lemma_cstr_end(s: Seq<u8>, i: int)
    ensures
        ascii_cstr_end(s, i) matches Some(z) ==> i <= z < s.len() && s[z] == 0,
    decreases s.len() - i,
{
    if 0 <= i < s.len() && s[i] != 0 && s[i] < 0x80 {
        lemma_cstr_end(s, i + 1);
    }
}

/// Every token the scan of a well-formed block reaches starts on a 4-byte
/// boundary.
pub proof fn scan_positions_are_aligned(s: Seq<u8>, t: Seq<u8>, st: ScanState, p: int)
    requires
        p % 4 == 0,
        scan_from(s, t, st, p),
        !st.ended,
    ensures
        scan_step(s, t, st, p) matches Some((next, q)) && q % 4 == 0 && p < q <= s.len() && scan_from(s, t, next, q),
{
    scan_steps_keep_tokens_aligned(s, t, st, p);
}

/// The structure block of a blob, as its header places it.
pub open spec fn structure_block(b: Seq<u8>) -> Seq<u8> {
    b.subrange(be32(b, 8), be32(b, 8) + be32(b, 36))
}

/// The strings block of a blob, as its header places it.
pub open spec fn strings_block(b: Seq<u8>) -> Seq<u8> {
    b.subrange(be32(b, 12), be32(b, 12) + be32(b, 32))
}

/// A device-tree blob that the `fdt` crate reads without fault: a full
/// header whose structure and strings blocks lie in the blob, and a
/// structure block that holds one root node, then the end token. Each node
/// has an ASCII name (the root's empty), its properties, then its children;
/// no node lies deeper than `MAX_DEPTH`. Each property lies within the block
/// and is named by an ASCII string of the strings block; `#address-cells`
/// and `#size-cells` hold at least four bytes. The root has at most two
/// address and two size cells; among its children are a `cpus` node and a
/// `memory` node, the first of which has a `reg` property; the first `cpus`
/// node has one or two address cells where it has `cpu` children, and each
/// of those has a `reg` property long enough for one address.
pub open spec fn blob_well_formed(b: Seq<u8>) -> bool {
    &&& b.len() >= 40
    &&& be32(b, 8) + be32(b, 36) <= b.len()
    &&& be32(b, 12) + be32(b, 32) <= b.len()
    &&& scan_from(structure_block(b), strings_block(b), initial_scan(), 0)
}

fn be32_at(s: &[u8], i: usize) -> (v: u32)
    requires
        i + 4 <= s@.len(),
    ensures
        v == be32(s@, i as int),
{
    s[i] as u32 * 0x100_0000 + s[i + 1] as u32 * 0x1_0000 + s[i + 2] as u32 * 0x100 + s[i + 3] as u32
}

fn cstr_end(s: &[u8], from: usize) -> (r: Option<usize>)
    ensures
        match r {
            Some(z) => ascii_cstr_end(s@, from as int) == Some(z as int),
            None => ascii_cstr_end(s@, from as int) is None,
        },
        r matches Some(z) ==> from <= z < s@.len(),
{
    let mut i = from;
    while i < s.len()
        invariant
            from <= i,
            ascii_cstr_end(s@, i as int) == ascii_cstr_end(s@, from as int),
        decreases s@.len() - i,
    {
        if s[i] == 0 {
            return Some(i);
        }
        if s[i] >= 0x80 {
            return None;
        }
        i = i + 1;
    }
    None
}

fn unit_start(s: &[u8], from: usize, end: usize) -> (r: usize)
    requires
        from <= end <= s@.len(),
    ensures
        r == unit_address_start(s@, from as int, end as int),
        from <= r <= end,
{
    let mut i = from;
    while i < end
        invariant
            from <= i <= end <= s@.len(),
            unit_address_start(s@, i as int, end as int) == unit_address_start(s@, from as int, end as int),
        decreases end - i,
    {
        if s[i] == 0x40 {
            return i;
        }
        i = i + 1;
    }
    i
}

fn bytes_equal(s: &[u8], a: usize, b: usize, lit: &[u8]) -> (r: bool)
    requires
        a <= b <= s@.len(),
    ensures
        r == (s@.subrange(a as int, b as int) == lit@),
{
    if b - a != lit.len() {
        return false;
    }
    let mut i: usize = 0;
    while i < lit.len()
        invariant
            b - a == lit@.len(),
            a <= b <= s@.len(),
            i <= lit@.len(),
            forall|k: int| 0 <= k < i ==> s@[a + k] == lit@[k],
        decreases lit@.len() - i,
    {
        if s[a + i] != lit[i] {
            assert(s@.subrange(a as int, b as int)[i as int] != lit@[i as int]);
            return false;
        }
        i = i + 1;
    }
    assert(s@.subrange(a as int, b as int) =~= lit@);
    true
}

fn align4_exec(n: usize) -> (r: Option<usize>)
    ensures
        match r {
            Some(v) => v == align4(n as int),
            None => align4(n as int) > usize::MAX,
        },
{
    n.checked_add((4 - n % 4) % 4)
}

fn begin_exec(s: &[u8], st: ScanState, p: usize) -> (r: Option<(ScanState, usize)>)
    requires
        p + 4 <= s.len(),
        st.depth <= MAX_DEPTH,
    ensures
        match r {
            Some((next, q)) => begin_step(s@, st, p as int) == Some((next, q as int)),
            None => begin_step(s@, st, p as int) is None || begin_step(s@, st, p as int).unwrap().1 > usize::MAX,
        },
{
    let z = match cstr_end(s, p + 4) {
        None => return None,
        Some(z) => z,
    };
    let depth = st.depth + 1;
    if !(st.depth >= 1 || !st.started) || depth > MAX_DEPTH || (st.depth == 0 && z != p + 4) {
        return None;
    }
    let u = unit_start(s, p + 4, z);
    let memory: [u8; 6] = [0x6d, 0x65, 0x6d, 0x6f, 0x72, 0x79];
    let cpus: [u8; 4] = [0x63, 0x70, 0x75, 0x73];
    let cpu: [u8; 3] = [0x63, 0x70, 0x75];
    assert(memory@ =~= memory_name());
    assert(cpus@ =~= cpus_name());
    assert(cpu@ =~= cpu_name());
    let is_memory = bytes_equal(s, p + 4, u, &memory);
    let is_cpus = bytes_equal(s, p + 4, u, &cpus);
    let is_cpu = bytes_equal(s, p + 4, u, &cpu);
    if depth == 3 && st.cpus == 1 && is_cpu && !(st.cpus_address_cells == 1 || st.cpus_address_cells == 2) {
        return None;
    }
    let padded = match align4_exec(z - (p + 4) + 1) {
        None => return None,
        Some(v) => v,
    };
    let q = match (p + 4).checked_add(padded) {
        None => return None,
        Some(q) => q,
    };
    let next = ScanState {
        started: true,
        depth: depth,
        props: true,
        memory: if depth == 2 && st.memory == 0 && is_memory { 1 } else { st.memory },
        cpus: if depth == 2 && st.cpus == 0 && is_cpus { 1 } else { st.cpus },
        in_cpu: if depth == 3 { st.cpus == 1 && is_cpu } else { st.in_cpu },
        cpu_has_reg: if depth == 3 { false } else { st.cpu_has_reg },
        ..st
    };
    Some((next, q))
}

fn end_node_exec(st: ScanState, p: usize) -> (r: Option<(ScanState, usize)>)
    requires
        p + 4 <= usize::MAX,
    ensures
        match r {
            Some((next, q)) => end_node_step(st, p as int) == Some((next, q as int)),
            None => end_node_step(st, p as int) is None,
        },
{
    if st.depth == 0 || (st.depth == 3 && st.in_cpu && !st.cpu_has_reg) {
        None
    } else {
        Some((ScanState {
            depth: st.depth - 1,
            props: false,
            in_cpu: if st.depth == 3 { false } else { st.in_cpu },
            memory: if st.depth == 2 && st.memory == 1 { 2 } else { st.memory },
            cpus: if st.depth == 2 && st.cpus == 1 { 2 } else { st.cpus },
            ..st
        }, p + 4))
    }
}

fn prop_exec(s: &[u8], t: &[u8], st: ScanState, p: usize) -> (r: Option<(ScanState, usize)>)
    requires
        p + 4 <= s.len(),
    ensures
        match r {
            Some((next, q)) => prop_step(s@, t@, st, p as int) == Some((next, q as int)),
            None => prop_step(s@, t@, st, p as int) is None || prop_step(s@, t@, st, p as int).unwrap().1 > usize::MAX,
        },
{
    if !st.props || st.depth == 0 || s.len() - p < 12 {
        return None;
    }
    let len = be32_at(s, p + 4);
    let off = be32_at(s, p + 8);
    if s.len() - (p + 12) < len as usize {
        return None;
    }
    let e = match cstr_end(t, off as usize) {
        None => return None,
        Some(e) => e,
    };
    let address_cells: [u8; 14] = [0x23, 0x61, 0x64, 0x64, 0x72, 0x65, 0x73, 0x73, 0x2d, 0x63, 0x65, 0x6c, 0x6c, 0x73];
    let size_cells: [u8; 11] = [0x23, 0x73, 0x69, 0x7a, 0x65, 0x2d, 0x63, 0x65, 0x6c, 0x6c, 0x73];
    let reg: [u8; 3] = [0x72, 0x65, 0x67];
    assert(address_cells@ =~= address_cells_name());
    assert(size_cells@ =~= size_cells_name());
    assert(reg@ =~= reg_name());
    let is_address_cells = bytes_equal(t, off as usize, e, &address_cells);
    let is_size_cells = bytes_equal(t, off as usize, e, &size_cells);
    let is_reg = bytes_equal(t, off as usize, e, &reg);
    if (is_address_cells || is_size_cells) && len < 4 {
        return None;
    }
    let v: u32 = if len >= 4 { be32_at(s, p + 12) } else { 0 };
    let first_cpu_reg = st.depth == 3 && st.in_cpu && is_reg && !st.cpu_has_reg;
    if first_cpu_reg && (len as u64) < 4 * (st.cpus_address_cells as u64) {
        return None;
    }
    let padded = match align4_exec(len as usize) {
        None => return None,
        Some(v) => v,
    };
    let q = match (p + 12).checked_add(padded) {
        None => return None,
        Some(q) => q,
    };
    let next = ScanState {
        root_address_cells: if st.depth == 1 && is_address_cells { v } else { st.root_address_cells },
        root_size_cells: if st.depth == 1 && is_size_cells { v } else { st.root_size_cells },
        memory_has_reg: st.memory_has_reg || (st.depth == 2 && st.memory == 1 && is_reg),
        cpus_address_cells: if st.depth == 2 && st.cpus == 1 && is_address_cells { v } else { st.cpus_address_cells },
        cpu_has_reg: st.cpu_has_reg || first_cpu_reg,
        ..st
    };
    Some((next, q))
}

fn step_exec(s: &[u8], t: &[u8], st: ScanState, p: usize) -> (r: Option<(ScanState, usize)>)
    requires
        p + 4 <= s.len(),
        st.depth <= MAX_DEPTH,
    ensures
        match r {
            Some((next, q)) => scan_step(s@, t@, st, p as int) == Some((next, q as int)) && next.depth <= MAX_DEPTH,
            None => scan_step(s@, t@, st, p as int) is None || scan_step(s@, t@, st, p as int).unwrap().1 > usize::MAX,
        },
{
    let tok = be32_at(s, p);
    if tok == FDT_BEGIN_NODE {
        begin_exec(s, st, p)
    } else if tok == FDT_END_NODE {
        end_node_exec(st, p)
    } else if tok == FDT_PROP {
        prop_exec(s, t, st, p)
    } else if tok == FDT_END && st.depth == 0 && st.started {
        Some((ScanState { ended: true, ..st }, p + 4))
    } else {
        None
    }
}

fn scan_structure(s: &[u8], t: &[u8]) -> (ok: bool)
    ensures
        ok == scan_from(s@, t@, initial_scan(), 0),
{
    let mut st = ScanState {
        started: false,
        ended: false,
        depth: 0,
        props: false,
        root_address_cells: 2,
        root_size_cells: 1,
        memory: 0,
        memory_has_reg: false,
        cpus: 0,
        cpus_address_cells: 2,
        in_cpu: false,
        cpu_has_reg: false,
    };
    let mut p: usize = 0;
    loop
        invariant
            p <= s@.len(),
            st.depth <= MAX_DEPTH,
            scan_from(s@, t@, st, p as int) == scan_from(s@, t@, initial_scan(), 0),
        decreases s@.len() - p,
    {
        if st.ended {
            return st.root_address_cells <= 2 && st.root_size_cells <= 2 && st.memory == 2 && st.memory_has_reg && st.cpus == 2;
        }
        if s.len() - p < 4 {
            return false;
        }
        match step_exec(s, t, st, p) {
            None => return false,
            Some((next, q)) => {
                if q <= p || q > s.len() {
                    return false;
                }
                st = next;
                p = q;
            },
        }
    }
}

/// Whether `blob` is a well-formed device-tree blob (see `blob_well_formed`).
pub fn check_blob(blob: &[u8]) -> (ok: bool)
    ensures
        ok == blob_well_formed(blob@),
{
    if blob.len() < 40 {
        return false;
    }
    let struct_offset = be32_at(blob, 8) as usize;
    let strings_offset = be32_at(blob, 12) as usize;
    let strings_size = be32_at(blob, 32) as usize;
    let struct_size = be32_at(blob, 36) as usize;
    if struct_offset > blob.len() || struct_size > blob.len() - struct_offset {
        return false;
    }
    if strings_offset > blob.len() || strings_size > blob.len() - strings_offset {
        return false;
    }
    let s = vstd::slice::slice_subrange(blob, struct_offset, struct_offset + struct_size);
    let t = vstd::slice::slice_subrange(blob, strings_offset, strings_offset + strings_size);
    scan_structure(s, t)
}

} // verus!
