//! The handle pool: plugin handles created ahead of time on each backend
//! session. A handle reported for a backend that is not registered (it may
//! have gone away meanwhile) is ignored.
use vstd::prelude::*;
use crate::store::{backend_with_id, find_backend, last_match, retain, Store};

verus! {

pub struct PoolHandle {
    pub backend_id: String,
    pub handle_id: i64,
}

pub struct HandlePool {
    handles: Vec<PoolHandle>,
}

impl View for HandlePool {
    type V = Seq<PoolHandle>;

    closed spec fn view(&self) -> Seq<PoolHandle> {
        self.handles@
    }
}

pub open spec fn handle_of_other(backend_id: Seq<char>) -> spec_fn(PoolHandle) -> bool {
    |h: PoolHandle| h.backend_id@ != backend_id
}

impl HandlePool {
    pub fn new() -> (r: HandlePool)
        ensures
            r@.len() == 0,
    {
        HandlePool { handles: Vec::new() }
    }

    pub fn handles(&self) -> (r: &Vec<PoolHandle>)
        ensures
            r@ == self@,
    {
        &self.handles
    }

    /// Records a handle created on a backend; a handle of a backend that is
    /// not registered is ignored. Says whether the handle was kept.
    pub fn handle_created_callback(&mut self, store: &Store, backend_id: &String, handle_id: i64) -> (r: bool)
        ensures
            r == last_match(store@.backends, backend_with_id(backend_id@)) is Some,
            r ==> final(self)@.len() == old(self)@.len() + 1 && final(self)@.drop_last() == old(self)@
                && final(self)@.last().backend_id@ == backend_id@ && final(self)@.last().handle_id == handle_id,
            !r ==> final(self)@ == old(self)@,
    {
        if find_backend(store.backends(), backend_id).is_some() {
            self.handles.push(PoolHandle { backend_id: backend_id.clone(), handle_id });
            proof {
                assert(self@.drop_last() =~= old(self)@);
            }
            true
        } else {
            false
        }
    }

    /// Forgets the handles of a backend that went away.
    pub fn remove_backend(&mut self, backend_id: &String)
        ensures
            final(self)@ == old(self)@.filter(handle_of_other(backend_id@)),
    {
        retain(
            &mut self.handles,
            |h: &PoolHandle| -> (b: bool) ensures b == (h.backend_id@ != backend_id@) { !(h.backend_id == *backend_id) },
            Ghost(handle_of_other(backend_id@)),
        );
    }
}

} // verus!
