//! Element-wise buffer merging with an explicit combine strategy, and the
//! cursor primitive used by the container writer to hand out successive
//! windows of an output buffer.

use vstd::pervasive::VecAdditionalExecFns;
use vstd::prelude::*;

verus! {

/// A fatal internal-consistency violation: a merge was asked to combine a
/// source with a destination window of a different length. This indicates a
/// programming or data error in song construction, never a condition to
/// retry or to truncate silently.
#[derive(Clone, Copy, Debug, PartialEq, Eq, Structural)]
pub enum InternalError {
    MismatchedLength,
}

/// Combine strategy that discards the current value and keeps the new one.
pub fn overwrite<T>(_curr: T, new: T) -> (r: T)
    ensures
        r == new,
{
    new
}

/// Combine strategy that sums the current and the new sample.
pub fn add(curr: i128, new: i128) -> (r: i128)
    requires
        i128::MIN <= curr + new <= i128::MAX,
    ensures
        r == curr + new,
{
    curr + new
}

/// Reserves the next `len` positions of a buffer of length `buf_len`:
/// advances the cursor past the window and hands back the window's start,
/// or `None` when the window would run past the end of the buffer, leaving
/// the cursor where it was.
pub fn grab(buf_len: usize, offset: &mut usize, len: usize) -> (r: Option<usize>)
    ensures
        match r {
            Some(start) => {
                &&& *old(offset) + len <= buf_len
                &&& start == *old(offset)
                &&& *final(offset) == *old(offset) + len
            },
            None => {
                &&& *old(offset) + len > buf_len
                &&& *final(offset) == *old(offset)
            },
        },
{
    if len <= buf_len && *offset <= buf_len - len {
        let start: usize = *offset;
        *offset = start + len;
        Some(start)
    } else {
        None
    }
}

/// Merges `src` into the window of `dst` that starts at `offset`, combining
/// element-wise with `merge_fn` (current value first, new value second).
/// A window that does not lie entirely inside `dst` is a fatal
/// internal-consistency error and leaves `dst` unchanged.
pub fn merge<T: Copy, F: Fn(T, T) -> T>(
    dst: &mut Vec<T>,
    offset: usize,
    src: &Vec<T>,
    merge_fn: F,
) -> (r: Result<(), InternalError>)
    requires
        offset + src@.len() <= old(dst)@.len() ==> forall|i: int|
            0 <= i < src@.len() ==> call_requires(
                merge_fn,
                (old(dst)@[offset + i], src@[i]),
            ),
    ensures
        match r {
            Ok(()) => {
                &&& offset + src@.len() <= old(dst)@.len()
                &&& final(dst)@.len() == old(dst)@.len()
                &&& forall|i: int|
                    0 <= i < src@.len() ==> call_ensures(
                        merge_fn,
                        (old(dst)@[offset + i], src@[i]),
                        #[trigger] final(dst)@[offset + i],
                    )
                &&& forall|j: int|
                    0 <= j < old(dst)@.len() && !(offset <= j < offset + src@.len())
                        ==> final(dst)@[j] == old(dst)@[j]
            },
            Err(e) => {
                &&& e == InternalError::MismatchedLength
                &&& offset + src@.len() > old(dst)@.len()
                &&& final(dst)@ == old(dst)@
            },
        },
{
    if src.len() > dst.len() || offset > dst.len() - src.len() {
        return Err(InternalError::MismatchedLength);
    }
    let mut i: usize = 0;
    while i < src.len()
        invariant
            i <= src@.len(),
            offset + src@.len() <= old(dst)@.len(),
            old(dst)@.len() <= usize::MAX,
            dst@.len() == old(dst)@.len(),
            offset + src@.len() <= old(dst)@.len() ==> forall|k: int|
                0 <= k < src@.len() ==> call_requires(
                    merge_fn,
                    (old(dst)@[offset + k], src@[k]),
                ),
            forall|k: int|
                0 <= k < i ==> call_ensures(
                    merge_fn,
                    (old(dst)@[offset + k], src@[k]),
                    #[trigger] dst@[offset + k],
                ),
            forall|j: int|
                0 <= j < dst@.len() && !(offset <= j < offset + i) ==> dst@[j] == old(dst)@[j],
        decreases src@.len() - i,
    {
        let v = merge_fn(dst[offset + i], src[i]);
        dst.set(offset + i, v);
        i += 1;
    }
    Ok(())
}

} // verus!
