//! Keeping a small download in memory, through a pooled buffer.
use vstd::prelude::*;
use crate::buffer::pool::{BufferPool, acquired, bytes_extend, bytes_to_vec, no_fit, released};

verus! {

/// The capacity asked of the pool: the announced size, 0 when unknown.
pub open spec fn requested_size(content_length: Option<u64>) -> usize {
    (match content_length {
        Some(n) => n,
        None => 0,
    }) as usize
}

/// Copies a response body into a buffer taken from `pool`, sized by the
/// announced `Content-Length` (0 when absent), then returns the buffer to the
/// pool and hands back the bytes: exactly the body.
pub fn buffer_body(pool: &mut BufferPool, content_length: Option<u64>, body: &[u8]) -> (r: Vec<u8>)
    requires
        old(pool).wf(),
        body@.len() <= isize::MAX,
        no_fit(old(pool).capacities(), requested_size(content_length))
            ==> requested_size(content_length) <= isize::MAX
            && old(pool).default_capacity() <= isize::MAX,
    ensures
        r@ == body@,
        final(pool).wf(),
        exists|c: usize| final(pool).capacities() == #[trigger] released(
            acquired(old(pool).capacities(), requested_size(content_length)),
            c,
            old(pool).limit(),
        ),
        final(pool).default_capacity() == old(pool).default_capacity(),
        final(pool).limit() == old(pool).limit(),
{
    let len = match content_length {
        Some(n) => n,
        None => 0,
    } as usize;
    let mut data = pool.acquire(len);
    bytes_extend(&mut data, body);
    let out = bytes_to_vec(&data);
    pool.release(data);
    out
}

} // verus!
