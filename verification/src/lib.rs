//! A WebDAV protocol engine over a flat object store.

pub mod auth;
pub mod dav;
pub mod events;
pub mod headers;
pub mod multistatus;
pub mod ordered;
pub mod props;
pub mod request;
pub mod roundtrip;
pub mod text;
pub mod values;
pub mod xml;
