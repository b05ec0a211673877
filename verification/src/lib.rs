//! Bounded admission, recovery and flow-control rules of an AMQP 1.0 engine.

pub mod admission;
pub mod admission_laws;
pub mod chunks;
pub mod codec;
pub mod definitions;
pub mod delivery_identity;
pub mod encoding_laws;
pub mod errors;
pub mod flow_state;
pub mod frame;
pub mod handles;
pub mod incoming_recovery;
pub mod incomplete_transfer;
pub mod link;
pub mod link_laws;
pub mod message;
pub mod message_laws;
pub mod observation;
pub mod ordered_map;
pub mod performatives;
pub mod receive_budget;
pub mod receive_window;
pub mod receiver_attach;
pub mod receiver_delivery;
pub mod receiver_laws;
pub mod receiver_link;
pub mod relay;
pub mod relay_laws;
pub mod role;
pub mod session;
pub mod session_disposition_laws;
pub mod session_dispositions;
pub mod session_handle;
pub mod session_laws;
pub mod session_link_laws;
pub mod session_links;
pub mod session_state;
pub mod session_transfer_laws;
pub mod transaction;
pub mod transfer_queue;
pub mod unsettled_store;
