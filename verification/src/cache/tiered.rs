//! Two-tiered caches.

use vstd::prelude::*;

verus! {

/// Two-tiered cache.
///
/// The assumption is that the first cache is faster than the next. For more tiers chain this
/// type.
#[derive(Clone, Debug)]
pub struct TieredCache<FirstCacheT, NextCacheT> {
    /// First cache.
    pub first: FirstCacheT,
    /// Next cache.
    pub next: NextCacheT,
}

impl<FirstCacheT, NextCacheT> TieredCache<FirstCacheT, NextCacheT> {
    /// Constructor.
    pub fn new(first: FirstCacheT, next: NextCacheT) -> (r: Self)
        ensures
            r.first == first,
            r.next == next,
    {
        TieredCache { first, next }
    }

    /// What a lookup does once the first tier has answered: a hit in the first tier is the
    /// answer, and a miss passes the lookup on to the next tier.
    pub fn after_first_lookup<R>(first_answer: Option<R>) -> (step: TieredLookup<R>)
        ensures
            match first_answer {
                Some(found) => step == TieredLookup::Found(found),
                None => step == TieredLookup::<R>::AskNext,
            },
    {
        match first_answer {
            Some(found) => TieredLookup::Found(found),
            None => TieredLookup::AskNext,
        }
    }
}

/// The step of a tiered lookup that follows the first tier's answer.
pub enum TieredLookup<R> {
    /// The first tier had the entry, which is the answer.
    Found(R),
    /// The first tier missed; the answer is the next tier's.
    AskNext,
}

} // verus!
