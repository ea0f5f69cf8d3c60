//! The tracker protocol: announce requests and the responses to them.

pub mod query_laws;
pub mod query_string;
pub mod server;
pub mod tracker_request;
pub mod tracker_response;

pub use query_string::{decode, encode, QueryString};
pub use server::{Reply, Server};
pub use tracker_request::{TrackerEvent, TrackerRequest};
pub use tracker_response::{Ip, Peer, Peers, TrackerResponse};
