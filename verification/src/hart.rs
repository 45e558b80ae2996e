use vstd::prelude::*;

verus! {

/// Per-hart record: which hart this is and which thread it is running.
#[derive(Copy, Clone)]
pub struct HartInfo {
    pub hart_id: usize,
    pub current_thread_id: Option<usize>,
}

impl HartInfo {
    /// The record a hart starts with: it runs no thread yet.
    pub fn new(hart_id: usize) -> (info: HartInfo)
        ensures
            info.hart_id == hart_id,
            info.current_thread_id is None,
    {
        HartInfo { hart_id, current_thread_id: None }
    }
}

impl Default for HartInfo {
    fn default() -> (info: HartInfo)
        ensures
            info.hart_id == 0,
            info.current_thread_id is None,
    {
        HartInfo { hart_id: 0, current_thread_id: None }
    }
}

} // verus!
