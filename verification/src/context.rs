use vstd::prelude::*;

verus! {

/// The register file of a thread, saved on a trap and restored when the
/// thread is resumed.
#[derive(Copy, Clone)]
pub struct Context {
    pub ra: usize,
    pub sp: usize,
    pub gp: usize,
    pub tp: usize,
    pub t: [usize; 7],
    pub a: [usize; 8],
    pub s: [usize; 12],
    pub f: [u64; 32],
    pub fcsr: u32,
    pub _pad: u32,
    pub sstatus: usize,
    pub sepc: usize,
}

impl Context {
    /// Every register of the context holds zero.
    pub open spec fn is_zeroed(&self) -> bool {
        &&& self.ra == 0
        &&& self.sp == 0
        &&& self.gp == 0
        &&& self.tp == 0
        &&& self.t@ == Seq::new(7, |i: int| 0usize)
        &&& self.a@ == Seq::new(8, |i: int| 0usize)
        &&& self.s@ == Seq::new(12, |i: int| 0usize)
        &&& self.f@ == Seq::new(32, |i: int| 0u64)
        &&& self.fcsr == 0
        &&& self._pad == 0
        &&& self.sstatus == 0
        &&& self.sepc == 0
    }
}

impl Default for Context {
    fn default() -> (c: Context)
        ensures
            c.is_zeroed(),
    {
        let c = Context {
            ra: 0,
            sp: 0,
            gp: 0,
            tp: 0,
            t: [0usize; 7],
            a: [0usize; 8],
            s: [0usize; 12],
            f: [0u64; 32],
            fcsr: 0,
            _pad: 0,
            sstatus: 0,
            sepc: 0,
        };
        assert(c.t@ =~= Seq::new(7, |i: int| 0usize));
        assert(c.a@ =~= Seq::new(8, |i: int| 0usize));
        assert(c.s@ =~= Seq::new(12, |i: int| 0usize));
        assert(c.f@ =~= Seq::new(32, |i: int| 0u64));
        c
    }
}

} // verus!
