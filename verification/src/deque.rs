//! The double-ended queue that holds the bytes of a stream.

use slice_deque::SliceDeque;
use vstd::prelude::*;

verus! {

/// The queue of the crate `slice_deque`, whose items lie in one slice.
#[verifier::external_type_specification]
#[verifier::external_body]
#[verifier::reject_recursive_types(T)]
pub struct ExSliceDeque<T>(SliceDeque<T>);

/// The bytes that a queue holds, front first.
pub uninterp spec fn deque_bytes(deque: SliceDeque<u8>) -> Seq<u8>;

/// Calls `SliceDeque::with_capacity`, which makes an empty queue with room
/// for `n` bytes. The bound on `n` keeps the size of that room from
/// overflowing.
#[verifier::external_body]
pub(crate) fn deque_with_capacity(n: usize) -> (deque: SliceDeque<u8>)
    requires
        n <= 0x1000_0000,
    ensures
        deque_bytes(deque) == Seq::<u8>::empty(),
{
    SliceDeque::with_capacity(n)
}

/// Calls `SliceDeque::len`, the number of bytes in the queue.
#[verifier::external_body]
pub(crate) fn deque_len(deque: &SliceDeque<u8>) -> (n: usize)
    ensures
        n == deque_bytes(*deque).len(),
{
    deque.len()
}

/// Calls `SliceDeque::as_slice`, which lends the bytes of the queue as one
/// slice.
#[verifier::external_body]
pub(crate) fn deque_as_slice(deque: &SliceDeque<u8>) -> (bytes: &[u8])
    ensures
        bytes@ == deque_bytes(*deque),
{
    deque.as_slice()
}

/// Calls `SliceDeque::extend_from_slice`, which appends the bytes of `other`
/// at the back. The call panics if the new length overflows, so that is
/// left out.
#[verifier::external_body]
pub(crate) fn deque_extend(deque: &mut SliceDeque<u8>, other: &[u8])
    requires
        deque_bytes(*old(deque)).len() + other@.len() <= usize::MAX,
    ensures
        deque_bytes(*final(deque)) == deque_bytes(*old(deque)) + other@,
{
    deque.extend_from_slice(other)
}

/// Calls `SliceDeque::truncate_front`, which drops bytes at the front until
/// `len` are left, and none if no more than `len` are there.
#[verifier::external_body]
pub(crate) fn deque_truncate_front(deque: &mut SliceDeque<u8>, len: usize)
    ensures
        deque_bytes(*final(deque)) == if len < deque_bytes(*old(deque)).len() {
            deque_bytes(*old(deque)).skip(deque_bytes(*old(deque)).len() - len)
        } else {
            deque_bytes(*old(deque))
        },
{
    deque.truncate_front(len)
}

} // verus!
