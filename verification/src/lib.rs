//! Core logic of a port-reachability test server: parsing of listener
//! specifications, the table of mapped ports, the reports sent back to
//! clients, HTTP routing and templating, and detection of HTTP traffic.
//! Sockets, files, clocks and the HTTP stack live in the application crate.

pub mod config;
pub mod detect;
pub mod http;
pub mod number;
pub mod portmap;
pub mod report;
pub mod text;
