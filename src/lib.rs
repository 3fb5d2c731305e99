//! Device-control protocols for a small smart house: the request/response
//! protocol over TCP, the telemetry datagrams over UDP, a simulated electric
//! socket that answers requests, and the house, room and device containers.
pub mod clever_house;
pub mod console;
pub mod named_map;
pub mod sdcp;
pub mod sdcpu;
pub mod smart_house;
pub mod socket_device;
pub mod text;
