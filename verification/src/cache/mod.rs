//! Response caching: configuration, cached bodies and the decisions of the caching middleware.

pub mod configuration;
pub mod weight;
pub mod body;
pub mod tiered;
pub mod upstream;
pub mod request;
pub mod response;
pub mod service;
pub mod key;
