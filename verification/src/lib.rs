pub mod binary;
pub mod cache;
pub mod channel;
pub mod channel_com;
pub mod envelope;
pub mod err;
pub mod field_message;
pub mod i64_to_string;
pub mod ids;
pub mod manager;
pub mod message;
pub mod node;
pub mod node_controller;
pub mod plugin;
pub mod plugin_manager;
pub mod shared_memory;
pub mod socket_layer;
pub mod socket_tree;
pub mod wait_response;
pub mod widgets;

use vstd::prelude::*;

verus! {

/// Index of a frame on the time line.
pub type FrameCount = i64;

} // verus!
