//! HTTP header negotiation, conditional requests and response-caching decisions.

pub mod text;
pub mod preferences;
pub mod selector;
pub mod etag;
pub mod media_type;
pub mod language;
pub mod encoding;
pub mod headers;
pub mod conditional;
pub mod immutable;
pub mod pieces;
pub mod cache;
pub mod body;
pub mod transcoding;
pub mod routing;
pub mod uri;
pub mod query_map;
pub mod response;
