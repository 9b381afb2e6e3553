//! Flow classification and forwarding decisions of the packet forwarding service.
pub mod classification;
pub mod server;
