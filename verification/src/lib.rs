//! A reverse proxy that serves several sites under one address, each below a path of its own.

pub mod atomic_value;
pub mod buffered_proxy;
pub mod line_proxy;
pub mod named_sites;
pub mod proxy;
pub mod req_header;
pub mod request;
pub mod response;
pub mod server;
pub mod sync_map;
pub mod text;
