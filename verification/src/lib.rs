//! Decision core of a port-forwarding proxy: source-address access control,
//! configuration text, and the state machines of the TCP and UDP bridges.

pub mod access_control;
pub mod config;
pub mod config_parser;
pub mod ipv4_text;
pub mod ipv6_canonical;
pub mod ipv6_text;
pub mod net;
pub mod tcp_handler;
pub mod text;
pub mod udp_handler;
