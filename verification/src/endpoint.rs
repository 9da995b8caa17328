//! The per-endpoint state shared by every entity kind that sends or
//! receives data: its identity, its outbound sequence counter, and the
//! QoS-bounded receive queue of (receive-timestamp, item) pairs.
//!
//! A push appends the new pair; under the keep-last history policy a full
//! queue first evicts its oldest pair (strict FIFO eviction, never
//! reordered). Under keep-all the queue grows until drained. Eviction
//! applies only when the history policy is exactly keep-last; callers
//! resolve system-default sentinels before a queue is sized, so no sentinel
//! reaches it.

use vstd::prelude::*;
use vstd::string::StringExecFns;

use crate::endpoint_info::EndpointInfo;
use crate::endpoint_info::EndpointInfoView;
use crate::endpoint_info::EntityType;
use crate::entity_node::Node;
use crate::qos::rmw_qos_profile_t;
use crate::qos::HISTORY_KEEP_LAST;
use crate::wait::WaitSetTrait;

verus! {

/// One push onto a receive queue: evict the oldest pair first when the
/// policy is keep-last and the queue is full, then append.
pub open spec fn spec_push_fifo<T>(
    fifo: Seq<(i64, T)>,
    qos: rmw_qos_profile_t,
    entry: (i64, T),
) -> Seq<(i64, T)> {
    if qos.history == HISTORY_KEEP_LAST && fifo.len() >= qos.depth && fifo.len() > 0 {
        fifo.drop_first().push(entry)
    } else {
        fifo.push(entry)
    }
}

/// The queue after pushing every entry in order.
pub open spec fn spec_push_all<T>(
    fifo: Seq<(i64, T)>,
    qos: rmw_qos_profile_t,
    entries: Seq<(i64, T)>,
) -> Seq<(i64, T)>
    decreases entries.len(),
{
    if entries.len() == 0 {
        fifo
    } else {
        spec_push_all(spec_push_fifo(fifo, qos, entries[0]), qos, entries.drop_first())
    }
}

proof fn lemma_push_all_window<T>(
    qos: rmw_qos_profile_t,
    fifo: Seq<(i64, T)>,
    entries: Seq<(i64, T)>,
)
    requires
        qos.history == HISTORY_KEEP_LAST,
        qos.depth >= 1,
        fifo.len() <= qos.depth,
    ensures
        spec_push_all(fifo, qos, entries) == (if fifo.len() + entries.len() <= qos.depth {
            fifo + entries
        } else {
            (fifo + entries).skip(fifo.len() + entries.len() - qos.depth)
        }),
    decreases entries.len(),
{
    let total = fifo + entries;
    if entries.len() == 0 {
        assert(total =~= fifo);
    } else {
        let e = entries[0];
        let rest = entries.drop_first();
        if fifo.len() >= qos.depth {
            let next = fifo.drop_first().push(e);
            lemma_push_all_window(qos, next, rest);
            assert(next + rest =~= total.skip(1));
            if next.len() + rest.len() <= qos.depth {
                assert(total.len() == qos.depth + 1);
                assert(spec_push_all(fifo, qos, entries) == total.skip(1));
                assert(total.skip(total.len() - qos.depth) == total.skip(1));
            } else {
                assert(total.skip(1).skip(next.len() + rest.len() - qos.depth) =~= total.skip(
                    total.len() - qos.depth,
                ));
            }
        } else {
            let next = fifo.push(e);
            lemma_push_all_window(qos, next, rest);
            assert(next + rest =~= total);
        }
    }
}

/// Pushing any run of entries longer than the depth onto an empty
/// keep-last queue leaves exactly the most recent `depth` entries, in
/// arrival order: the oldest are evicted first.
pub proof fn lemma_keep_last_window<T>(qos: rmw_qos_profile_t, entries: Seq<(i64, T)>)
    requires
        qos.history == HISTORY_KEEP_LAST,
        qos.depth >= 1,
    ensures
        spec_push_all(Seq::empty(), qos, entries) == (if entries.len() <= qos.depth {
            entries
        } else {
            entries.skip(entries.len() - qos.depth)
        }),
{
    lemma_push_all_window(qos, Seq::empty(), entries);
    assert(Seq::empty() + entries =~= entries);
    if entries.len() > qos.depth {
        assert((Seq::empty() + entries).skip(entries.len() - qos.depth) =~= entries.skip(
            entries.len() - qos.depth,
        ));
    }
}

/// A communication endpoint: identity, outbound sequence counter, and the
/// bounded receive queue.
pub struct Endpoint<T> {
    pub info: EndpointInfo,
    pub sequence_number: i64,
    pub recv_fifo: Vec<(i64, T)>,
}

impl<T> Endpoint<T> {
    /// Builds the endpoint for a fresh entity of the node: the node's
    /// identity plus a newly allocated entity id, the entity kind, the
    /// endpoint name and payload type name, and the (already resolved)
    /// QoS. The sequence counter starts at one and the queue is empty.
    pub fn new(
        node: &mut Node,
        entity_type: EntityType,
        endpoint_name: &str,
        payload_type: &str,
        qos: rmw_qos_profile_t,
    ) -> (e: Endpoint<T>)
        requires
            old(node).next_entity_id < usize::MAX,
        ensures
            e.info@ == (EndpointInfoView {
                entity_id: old(node).next_entity_id,
                entity_type: entity_type,
                endpoint_name: endpoint_name@,
                endpoint_type: payload_type@,
                qos: qos,
                ..old(node).info@
            }),
            e.sequence_number == 1,
            e.recv_fifo@ == Seq::<(i64, T)>::empty(),
            final(node).info == old(node).info,
            final(node).graph_cache == old(node).graph_cache,
            final(node).next_entity_id == old(node).next_entity_id + 1,
    {
        let mut info = node.info.clone();
        info.entity_id = node.generate_entity_id();
        info.entity_type = entity_type;
        info.endpoint_name = String::from_str(endpoint_name);
        info.endpoint_type = String::from_str(payload_type);
        info.qos = qos;
        let e = Endpoint { info, sequence_number: 1, recv_fifo: Vec::new() };
        proof {
            assert(e.recv_fifo@ =~= Seq::<(i64, T)>::empty());
        }
        e
    }

    /// Whether the receive queue holds nothing.
    pub fn is_empty(&self) -> (r: bool)
        ensures
            r == (self.recv_fifo@.len() == 0),
    {
        self.recv_fifo.len() == 0
    }

    /// Appends one received item with its receive timestamp, evicting the
    /// oldest item first when the keep-last queue is full.
    pub fn push_recv_data(&mut self, timestamp: i64, data: T)
        ensures
            final(self).recv_fifo@ == spec_push_fifo(
                old(self).recv_fifo@,
                old(self).info@.qos,
                (timestamp, data),
            ),
            final(self).info == old(self).info,
            final(self).sequence_number == old(self).sequence_number,
    {
        let ghost old_fifo = self.recv_fifo@;
        if self.info.qos.history == HISTORY_KEEP_LAST && self.recv_fifo.len() >= self.info.qos.depth
            && self.recv_fifo.len() > 0 {
            self.recv_fifo.remove(0);
            proof {
                assert(self.recv_fifo@ =~= old_fifo.drop_first());
            }
        }
        self.recv_fifo.push((timestamp, data));
    }

    /// Removes and returns the oldest queued pair, if any; non-blocking.
    pub fn take_message(&mut self) -> (r: Option<(i64, T)>)
        ensures
            old(self).recv_fifo@.len() == 0 ==> (r is None && *final(self) == *old(self)),
            old(self).recv_fifo@.len() > 0 ==> (r == Some(old(self).recv_fifo@[0])
                && final(self).recv_fifo@ == old(self).recv_fifo@.drop_first()
                && final(self).info == old(self).info
                && final(self).sequence_number == old(self).sequence_number),
    {
        if self.recv_fifo.len() == 0 {
            None
        } else {
            let ghost old_fifo = self.recv_fifo@;
            let entry = self.recv_fifo.remove(0);
            proof {
                assert(self.recv_fifo@ =~= old_fifo.drop_first());
            }
            Some(entry)
        }
    }

    /// Hands out the next outbound sequence number (the counter's current
    /// value) and advances the counter.
    pub fn next_sequence_number(&mut self) -> (s: i64)
        requires
            old(self).sequence_number < i64::MAX,
        ensures
            s == old(self).sequence_number,
            final(self).sequence_number == old(self).sequence_number + 1,
            final(self).info == old(self).info,
            final(self).recv_fifo == old(self).recv_fifo,
    {
        let s = self.sequence_number;
        self.sequence_number = self.sequence_number + 1;
        s
    }
}

impl<T> WaitSetTrait for Endpoint<T> {
    open spec fn spec_is_empty(&self) -> bool {
        self.recv_fifo@.len() == 0
    }

    open spec fn spec_consumed(&self) -> Endpoint<T> {
        Endpoint {
            info: self.info,
            sequence_number: self.sequence_number,
            recv_fifo: self.recv_fifo,
        }
    }

    fn is_empty(&self) -> (r: bool) {
        self.recv_fifo.len() == 0
    }

    fn cleanup(&mut self) {
    }
}

} // verus!
