//! Decisions of reading a body whole: how much to read, and what the reading came to.

use vstd::prelude::*;

verus! {

/// How many bytes to read: the declared size if there is one, else the maximum.
///
/// A declared size must lie between the minimum and the maximum, and the minimum may not be
/// above the maximum.
pub fn read_size(declared_size: Option<usize>, min_size: usize, max_size: usize) -> (r: usize)
    requires
        min_size <= max_size,
        declared_size matches Some(declared) ==> min_size <= declared <= max_size,
    ensures
        r == match declared_size {
            Some(declared) => declared,
            None => max_size,
        },
        min_size <= r <= max_size,
{
    match declared_size {
        Some(declared) => declared,
        None => max_size,
    }
}

/// What trying to read one more byte, after reading up to the read size, gave.
#[derive(Clone, Copy, Debug, PartialEq, Eq, Structural)]
pub enum Probe {
    /// A byte: the body is bigger than the read size.
    Byte,
    /// The end of the body.
    End,
    /// An error other than the end of the body.
    Failure,
}

/// What reading a body whole came to.
#[derive(Clone, Copy, Debug, PartialEq, Eq, Structural)]
pub enum ReadOutcome {
    /// The body is bigger than the read size; the bytes read are handed back as pieces.
    TooBig,
    /// Reading failed; the bytes read are handed back as pieces.
    Failed,
    /// The body is smaller than the minimum; the bytes read are handed back as pieces.
    TooSmall,
    /// The body was read whole.
    Complete,
}

/// What reading a body whole came to, given what the probe after the read size gave and how
/// many bytes were read.
pub fn read_outcome(probe: Probe, read: usize, min_size: usize) -> (r: ReadOutcome)
    ensures
        r == match probe {
            Probe::Byte => ReadOutcome::TooBig,
            Probe::Failure => ReadOutcome::Failed,
            Probe::End => if read < min_size {
                ReadOutcome::TooSmall
            } else {
                ReadOutcome::Complete
            },
        },
{
    match probe {
        Probe::Byte => ReadOutcome::TooBig,
        Probe::Failure => ReadOutcome::Failed,
        Probe::End => {
            if read < min_size {
                ReadOutcome::TooSmall
            } else {
                ReadOutcome::Complete
            }
        },
    }
}

/// How many bytes of `available` to copy into a buffer with `space` left, and how many are
/// left over to keep for the next read.
pub fn copy_split(space: usize, available: usize) -> (r: (usize, usize))
    ensures
        r.0 == (if space < available {
            space
        } else {
            available
        }),
        r.0 + r.1 == available,
{
    let size = if space < available {
        space
    } else {
        available
    };
    (size, available - size)
}

/// What one read of a body reader hands out, from the bytes kept from before followed by a
/// frame's data (none where the read only drains what was kept): as much as the buffer's space
/// allows, first of the kept bytes, then of the data. The rest is kept for the next read. Nothing
/// is lost or reordered: what is handed out, followed by what is kept, is what was kept before
/// followed by the data.
pub fn take_into_buffer(kept: &mut Vec<u8>, data: &[u8], space: usize) -> (out: Vec<u8>)
    ensures
        out@ + final(kept)@ == old(kept)@ + data@,
        out@.len() == (if space < old(kept)@.len() + data@.len() {
            space as int
        } else {
            (old(kept)@.len() + data@.len()) as int
        }),
{
    let ghost start = kept@;
    let mut i: usize = 0;
    while i < data.len()
        invariant
            i <= data@.len(),
            kept@ == start + data@.take(i as int),
        decreases data@.len() - i,
    {
        kept.push(data[i]);
        assert(start + data@.take(i + 1) =~= (start + data@.take(i as int)).push(data@[i as int]));
        i = i + 1;
    }
    assert(data@.take(data@.len() as int) =~= data@);
    let total = kept.len();
    let (size, _) = copy_split(space, total);
    let rest = kept.split_off(size);
    let mut out = rest;
    std::mem::swap(&mut out, kept);
    assert(out@ + kept@ =~= start + data@);
    out
}

/// The initial capacity of the buffer that keeps leftover bytes: 8 KiB.
pub const REMAINDER_INITIAL_CAPACITY: usize = 8192;

/// How much to reserve in the leftover buffer before keeping bytes in it, so that its capacity
/// is at least [REMAINDER_INITIAL_CAPACITY].
pub fn remainder_reserve(capacity: usize) -> (r: usize)
    ensures
        r == (if capacity < REMAINDER_INITIAL_CAPACITY {
            REMAINDER_INITIAL_CAPACITY - capacity
        } else {
            0
        }),
        capacity + r >= REMAINDER_INITIAL_CAPACITY,
{
    if capacity < REMAINDER_INITIAL_CAPACITY {
        REMAINDER_INITIAL_CAPACITY - capacity
    } else {
        0
    }
}

} // verus!
