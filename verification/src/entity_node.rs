//! A node: its identity, its entity-id counter (entity id zero is reserved
//! for the node itself), and its own graph cache. The liveliness token
//! whose presence announces the node lives outside this library.

use vstd::prelude::*;
use vstd::string::StringExecFns;

use crate::context::Context;
use crate::endpoint_info::EndpointInfo;
use crate::endpoint_info::EndpointInfoView;
use crate::endpoint_info::EntityType;
use crate::endpoint_info::spec_default_endpoint_info;
use crate::graph_cache::GraphCache;

verus! {

/// One node of a context.
pub struct Node {
    pub info: EndpointInfo,
    pub next_entity_id: usize,
    pub graph_cache: GraphCache,
}

impl Node {
    /// Builds a node: its identity takes the context's domain id and
    /// enclave, a freshly allocated node id, the given substrate peer id,
    /// namespace and name; entity ids start at one (zero is the node
    /// itself); the graph cache starts empty.
    pub fn new(context: &mut Context, z_id: &str, namespace: &str, node_name: &str) -> (n: Node)
        requires
            old(context).next_node_id < usize::MAX,
        ensures
            n.info@ == (EndpointInfoView {
                domain_id: old(context).domain_id,
                z_id: z_id@,
                node_id: old(context).next_node_id,
                entity_type: EntityType::Node,
                enclave: old(context).enclave@,
                namespace: namespace@,
                node_name: node_name@,
                ..spec_default_endpoint_info()
            }),
            n.next_entity_id == 1,
            n.graph_cache.wf(),
            n.graph_cache.entries().len() == 0,
            final(context).next_node_id == old(context).next_node_id + 1,
            final(context).domain_id == old(context).domain_id,
            final(context).enclave == old(context).enclave,
    {
        let mut info = EndpointInfo::default();
        info.domain_id = context.domain_id;
        info.z_id = String::from_str(z_id);
        info.node_id = context.generate_node_id();
        info.entity_id = 0;
        info.entity_type = EntityType::Node;
        info.enclave = context.enclave.clone();
        info.namespace = String::from_str(namespace);
        info.node_name = String::from_str(node_name);
        Node { info, next_entity_id: 1, graph_cache: GraphCache::new() }
    }

    /// Hands out the next entity id (unique per node) and advances the
    /// counter.
    pub fn generate_entity_id(&mut self) -> (id: usize)
        requires
            old(self).next_entity_id < usize::MAX,
        ensures
            id == old(self).next_entity_id,
            final(self).next_entity_id == old(self).next_entity_id + 1,
            final(self).info == old(self).info,
            final(self).graph_cache == old(self).graph_cache,
    {
        let id = self.next_entity_id;
        self.next_entity_id = self.next_entity_id + 1;
        id
    }
}

} // verus!
