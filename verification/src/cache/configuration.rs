//! Caching and encoding configuration.

use vstd::prelude::*;

verus! {

/// Caching configuration.
#[derive(Clone, Copy, Debug)]
pub struct CachingConfiguration {
    /// Minimum body size.
    pub min_body_size: usize,
    /// Maximum body size.
    pub max_body_size: usize,
    /// Cacheable by default.
    pub cacheable_by_default: bool,
}

impl CachingConfiguration {
    /// Whether the sizes make sense: the minimum is not above the maximum.
    pub open spec fn is_valid(&self) -> bool {
        self.min_body_size <= self.max_body_size
    }
}

impl Default for CachingConfiguration {
    /// No minimum body size, a maximum of 1 MiB, and cacheable by default.
    fn default() -> (r: Self)
        ensures
            r.min_body_size == 0,
            r.max_body_size == 1024 * 1024,
            r.cacheable_by_default,
    {
        CachingConfiguration { min_body_size: 0, max_body_size: 1024 * 1024, cacheable_by_default: true }
    }
}

/// Encoding configuration.
#[derive(Clone, Copy, Debug)]
pub struct EncodingConfiguration {
    /// Minimum body size.
    pub min_body_size: usize,
    /// Encodable by default.
    pub encodable_by_default: bool,
    /// Keep identity encoding.
    pub keep_identity_encoding: bool,
}

impl Default for EncodingConfiguration {
    /// No minimum body size, encodable by default, and keeping the identity encoding.
    fn default() -> (r: Self)
        ensures
            r.min_body_size == 0,
            r.encodable_by_default,
            r.keep_identity_encoding,
    {
        EncodingConfiguration { min_body_size: 0, encodable_by_default: true, keep_identity_encoding: true }
    }
}

} // verus!
