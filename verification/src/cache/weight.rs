//! Cache weights.

use vstd::prelude::*;

use crate::text::views;

verus! {

/// Cache weight.
pub trait CacheWeight {
    /// Cache weight as a byte count.
    ///
    /// It is *not* the amount of memory used, but rather an indicator of *potential* storage
    /// requirements, meant for comparing items of the same type.
    fn cache_weight(&self) -> usize;
}

/// A weight as a `usize`: saturated at `usize::MAX`.
pub open spec fn saturated(weight: int) -> int {
    if weight <= usize::MAX {
        weight
    } else {
        usize::MAX as int
    }
}

/// The number of bytes of a text (its UTF-8 encoding), as `str::len` gives it.
pub open spec fn text_length(text: Seq<char>) -> int {
    vstd::utf8::encode_utf8(text).len() as usize as int
}

/// The sum of two weights, saturating at `usize::MAX`.
pub fn add_weights(a: usize, b: usize) -> (r: usize)
    ensures
        r == saturated(a + b),
{
    a.saturating_add(b)
}

/// The byte length of a text.
pub fn text_weight(text: &String) -> (r: usize)
    ensures
        r == text_length(text@),
{
    text.as_str().len()
}

/// The bytes of several texts, together.
pub open spec fn texts_length(texts: Seq<Seq<char>>) -> int
    decreases texts.len(),
{
    if texts.len() == 0 {
        0
    } else {
        texts_length(texts.drop_last()) + text_length(texts.last())
    }
}

/// The byte length of several texts together, saturating at `usize::MAX`.
pub fn texts_weight(texts: &Vec<String>) -> (r: usize)
    ensures
        r == saturated(texts_length(views(texts@))),
{
    let ghost all = views(texts@);
    let mut size: usize = 0;
    let mut i: usize = 0;
    while i < texts.len()
        invariant
            i <= texts@.len(),
            all == views(texts@),
            size == saturated(texts_length(all.take(i as int))),
        decreases texts@.len() - i,
    {
        assert(all.take(i + 1).drop_last() =~= all.take(i as int));
        assert(all.take(i + 1).last() == texts@[i as int]@);
        size = add_weights(size, text_weight(&texts[i]));
        i = i + 1;
    }
    assert(all.take(texts@.len() as int) =~= all);
    size
}

/// A weight as a moka weigher needs it: the sum of the key's and the entry's weights, as a
/// `u32` that saturates at `u32::MAX`.
pub fn weigher_weight(key_weight: usize, entry_weight: usize) -> (r: u32)
    ensures
        r == (if key_weight + entry_weight <= u32::MAX {
            key_weight + entry_weight
        } else {
            u32::MAX as int
        }),
{
    let weight = key_weight.saturating_add(entry_weight);
    if weight <= u32::MAX as usize {
        weight as u32
    } else {
        u32::MAX
    }
}

} // verus!
