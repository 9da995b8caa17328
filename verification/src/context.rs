//! The per-process execution context: the domain id, the enclave, and the
//! node-id counter. The substrate session and the process-wide wait signal
//! that accompany it live outside this library.

use vstd::prelude::*;
use vstd::string::StringExecFns;

verus! {

/// The state every node of one process shares.
pub struct Context {
    pub domain_id: usize,
    pub enclave: String,
    pub next_node_id: usize,
}

impl Context {
    /// A fresh context; node ids start at zero.
    pub fn new(domain_id: usize, enclave: &str) -> (c: Context)
        ensures
            c.domain_id == domain_id,
            c.enclave@ == enclave@,
            c.next_node_id == 0,
    {
        Context { domain_id, enclave: String::from_str(enclave), next_node_id: 0 }
    }

    /// Hands out the next node id (unique per context) and advances the
    /// counter.
    pub fn generate_node_id(&mut self) -> (id: usize)
        requires
            old(self).next_node_id < usize::MAX,
        ensures
            id == old(self).next_node_id,
            final(self).next_node_id == old(self).next_node_id + 1,
            final(self).domain_id == old(self).domain_id,
            final(self).enclave == old(self).enclave,
    {
        let id = self.next_node_id;
        self.next_node_id = self.next_node_id + 1;
        id
    }
}

} // verus!
