//! The byte queues of a connection: bytes join at the rear and leave at the
//! front.

use vstd::prelude::*;
use std::collections::VecDeque;

verus! {

/// Removes the first `n` bytes of the queue.
pub fn drain_front(queue: &mut VecDeque<u8>, n: usize)
    requires
        n <= old(queue)@.len(),
    ensures
        final(queue)@ == old(queue)@.skip(n as int),
{
    let mut i: usize = 0;
    assert(queue@.skip(0) =~= queue@);
    while i < n
        invariant
            i <= n,
            n <= old(queue)@.len(),
            queue@ == old(queue)@.skip(i as int),
        decreases n - i,
    {
        let _ = queue.pop_front();
        i += 1;
        assert(queue@ =~= old(queue)@.skip(i as int));
    }
}

/// Appends `data` from position `from` on to the queue.
pub fn extend_from(queue: &mut VecDeque<u8>, data: &[u8], from: usize)
    requires
        from <= data@.len(),
    ensures
        final(queue)@ == old(queue)@ + data@.skip(from as int),
{
    let mut i: usize = from;
    assert(queue@ =~= old(queue)@ + data@.subrange(from as int, from as int));
    while i < data.len()
        invariant
            from <= i <= data@.len(),
            queue@ == old(queue)@ + data@.subrange(from as int, i as int),
        decreases data@.len() - i,
    {
        queue.push_back(data[i]);
        i += 1;
        assert(queue@ =~= old(queue)@ + data@.subrange(from as int, i as int));
    }
    assert(data@.subrange(from as int, data@.len() as int) =~= data@.skip(from as int));
}

/// Copies `n` bytes of the queue, starting at position `start`.
pub fn copy_range(queue: &VecDeque<u8>, start: usize, n: usize) -> (bytes: Vec<u8>)
    requires
        start + n <= queue@.len(),
    ensures
        bytes@ == queue@.subrange(start as int, start + n),
{
    let mut bytes: Vec<u8> = Vec::new();
    let len = queue.len();
    let mut i: usize = 0;
    assert(bytes@ =~= queue@.subrange(start as int, start as int));
    while i < n
        invariant
            i <= n,
            len == queue@.len(),
            start + n <= queue@.len(),
            bytes@ == queue@.subrange(start as int, start + i),
        decreases n - i,
    {
        bytes.push(queue[start + i]);
        i += 1;
        assert(bytes@ =~= queue@.subrange(start as int, start + i));
    }
    bytes
}

} // verus!
