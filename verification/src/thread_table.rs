use vstd::prelude::*;
use slab::Slab;
use crate::context::Context;

verus! {

/// A thread known to the scheduler: its saved registers, its stack and
/// whether it has been asked to terminate.
pub struct Thread {
    pub context: Context,
    pub stack: Vec<u8>,
    pub dead: bool,
}

#[verifier::external_type_specification]
#[verifier::external_body]
#[verifier::reject_recursive_types(T)]
pub struct ExSlab<T>(Slab<T>);

/// What a slab of threads holds: each occupied key and its thread.
pub uninterp spec fn slab_threads(s: Slab<Thread>) -> Map<usize, Thread>;

/// `Slab::new`: a slab that holds nothing.
#[verifier::external_body]
pub(crate) fn slab_new() -> (empty: Slab<Thread>)
    ensures
        slab_threads(empty) =~= Map::empty(),
{
    Slab::new()
}

/// `Slab::insert`: stores the thread under a key that was vacant before the
/// call and returns that key; every other entry stays as it was.
#[verifier::external_body]
pub(crate) fn slab_insert(s: &mut Slab<Thread>, thread: Thread) -> (key: usize)
    ensures
        !slab_threads(*old(s)).contains_key(key),
        slab_threads(*final(s)) == slab_threads(*old(s)).insert(key, thread),
{
    s.insert(thread)
}

/// `Slab::contains`: whether the key is occupied.
#[verifier::external_body]
pub(crate) fn slab_contains(s: &Slab<Thread>, key: usize) -> (b: bool)
    ensures
        b == slab_threads(*s).contains_key(key),
{
    s.contains(key)
}

/// `Slab::get`: the thread stored under the key, or `None` for a vacant key.
#[verifier::external_body]
pub(crate) fn slab_get(s: &Slab<Thread>, key: usize) -> (r: Option<&Thread>)
    ensures
        match r {
            Some(t) => slab_threads(*s).contains_key(key) && *t == slab_threads(*s)[key],
            None => !slab_threads(*s).contains_key(key),
        },
{
    s.get(key)
}

/// `Slab::remove` on an occupied key: returns its thread and vacates the key.
#[verifier::external_body]
pub(crate) fn slab_remove(s: &mut Slab<Thread>, key: usize) -> (t: Thread)
    requires
        slab_threads(*old(s)).contains_key(key),
    ensures
        t == slab_threads(*old(s))[key],
        slab_threads(*final(s)) == slab_threads(*old(s)).remove(key),
{
    s.remove(key)
}

/// `IndexMut::index_mut` of `Slab` on an occupied key: a mutable borrow of
/// that key's thread; whatever the borrow ends holding is the key's thread
/// afterwards, and every other key keeps its own.
#[verifier::external_body]
pub(crate) fn slab_get_mut(s: &mut Slab<Thread>, key: usize) -> (t: &mut Thread)
    requires
        slab_threads(*old(s)).contains_key(key),
    ensures
        *t == slab_threads(*old(s))[key],
        slab_threads(*final(s)) == slab_threads(*old(s)).insert(key, *final(t)),
{
    &mut s[key]
}

} // verus!
