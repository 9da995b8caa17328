//! A middleware adaptation layer that maps rich entity identities (nodes,
//! publishers, subscribers, services, clients) and their QoS profiles onto a
//! flat, key-addressed publish/subscribe substrate.
//!
//! The core pieces are the identity/key codec, the QoS profile rules and
//! canonical string form, the attachment (correlation envelope) byte codec,
//! the bounded per-endpoint receive queue, the process-local graph cache fed
//! by liveliness events, and the readiness/wait primitives. All of them are
//! pure logic over plain values; the substrate session, network I/O and FFI
//! surfaces live outside this library and call into it.

pub mod attachment;
pub mod context;
pub mod endpoint;
pub mod endpoint_info;
pub mod entity_node;
pub mod event;
pub mod graph_cache;
pub mod graph_cache_utils;
pub mod guard_condition;
pub mod qos;
pub mod service;
pub mod text;
pub mod wait;
