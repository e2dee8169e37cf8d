//! A pool that hands out and takes back byte buffers so that downloads reuse
//! their allocations.
use vstd::prelude::*;
use bytes::BytesMut;

verus! {

#[verifier::external_type_specification]
#[verifier::external_body]
pub struct ExBytesMut(BytesMut);

/// The bytes that a `BytesMut` holds.
pub uninterp spec fn bytes_contents(b: BytesMut) -> Seq<u8>;

/// The capacity that `BytesMut::with_capacity` was asked for when it made
/// the buffer.
pub uninterp spec fn made_capacity(b: BytesMut) -> nat;

/// `BytesMut::with_capacity`: a new, empty buffer made with room for
/// `capacity` bytes (`made_capacity`). What the allocator actually gave, at
/// least that much, is not stated here.
#[verifier::external_body]
fn bytes_with_capacity(capacity: usize) -> (b: BytesMut)
    requires
        capacity <= isize::MAX,
    ensures
        bytes_contents(b) == Seq::<u8>::empty(),
        made_capacity(b) == capacity,
{
    BytesMut::with_capacity(capacity)
}

/// `BytesMut::clear`: removes all data (it sets the length to 0), so a
/// buffer that is already empty is left exactly as it was.
#[verifier::external_body]
fn bytes_clear(b: &mut BytesMut)
    ensures
        bytes_contents(*final(b)) == Seq::<u8>::empty(),
        bytes_contents(*old(b)).len() == 0 ==> *final(b) == *old(b),
{
    b.clear()
}

/// `BytesMut::capacity`: how many bytes the buffer holds without
/// reallocating. A buffer made by `with_capacity` holds at least what it was
/// made with; beyond that the number depends on what the allocator gave, and
/// nothing more is stated of it.
#[verifier::external_body]
fn bytes_capacity(b: &BytesMut) -> (r: usize)
    ensures
        r >= made_capacity(*b),
{
    b.capacity()
}

/// `BytesMut::extend_from_slice`: appends `data`, growing the buffer first
/// when needed; growing past `isize::MAX` bytes panics, so that is excluded.
#[verifier::external_body]
pub fn bytes_extend(b: &mut BytesMut, data: &[u8])
    requires
        bytes_contents(*old(b)).len() + data@.len() <= isize::MAX,
    ensures
        bytes_contents(*final(b)) == bytes_contents(*old(b)) + data@,
{
    b.extend_from_slice(data)
}

/// `<[u8]>::to_vec` on the buffer's bytes: a copy of its contents.
#[verifier::external_body]
pub fn bytes_to_vec(b: &BytesMut) -> (r: Vec<u8>)
    ensures
        r@ == bytes_contents(*b),
{
    b.to_vec()
}

/// A pooled buffer and the capacity it reported when it came back.
struct PooledBuffer {
    buf: BytesMut,
    capacity: usize,
}

/// A simple buffer pool to reuse `BytesMut` allocations and reduce
/// allocations. It keeps at most `max_buffers` buffers, all of them empty.
pub struct BufferPool {
    pool: Vec<PooledBuffer>,
    buffer_size: usize,
    max_buffers: usize,
}

/// The index of the first capacity in `caps` that is at least `size`.
pub open spec fn first_fit(caps: Seq<usize>, size: usize, i: int) -> bool {
    &&& 0 <= i < caps.len()
    &&& caps[i] >= size
    &&& forall|j: int| 0 <= j < i ==> caps[j] < size
}

/// No capacity in `caps` reaches `size`.
pub open spec fn no_fit(caps: Seq<usize>, size: usize) -> bool {
    forall|j: int| 0 <= j < caps.len() ==> caps[j] < size
}

/// Where the first buffer that is large enough for `size` sits.
pub open spec fn fit_index(caps: Seq<usize>, size: usize) -> int {
    choose|i: int| first_fit(caps, size, i)
}

/// The pooled capacities after `acquire(size)`: the first buffer that is
/// large enough leaves the pool; when none is, the pool is unchanged.
pub open spec fn acquired(caps: Seq<usize>, size: usize) -> Seq<usize> {
    if exists|i: int| first_fit(caps, size, i) {
        caps.remove(fit_index(caps, size))
    } else {
        caps
    }
}

/// The pooled capacities after a buffer of capacity `cap` is released into a
/// pool that keeps at most `max` buffers: kept when there is room, dropped
/// otherwise.
pub open spec fn released(caps: Seq<usize>, cap: usize, max: usize) -> Seq<usize> {
    if caps.len() < max {
        caps.push(cap)
    } else {
        caps
    }
}

impl BufferPool {
    /// The capacities of the pooled buffers, oldest first.
    pub closed spec fn capacities(&self) -> Seq<usize> {
        self.pool@.map_values(|p: PooledBuffer| p.capacity)
    }

    /// The default capacity of new buffers.
    pub closed spec fn default_capacity(&self) -> usize {
        self.buffer_size
    }

    /// The most buffers the pool keeps.
    pub closed spec fn limit(&self) -> usize {
        self.max_buffers
    }

    /// The pooled buffers, oldest first.
    pub closed spec fn buffers(&self) -> Seq<BytesMut> {
        self.pool@.map_values(|p: PooledBuffer| p.buf)
    }

    /// What the pooled buffers hold, oldest first.
    pub closed spec fn contents(&self) -> Seq<Seq<u8>> {
        self.pool@.map_values(|p: PooledBuffer| bytes_contents(p.buf))
    }

    /// A well-formed pool never holds more than `limit()` buffers, and every
    /// buffer it holds is empty.
    pub proof fn lemma_pool_invariant(&self)
        requires
            self.wf(),
        ensures
            self.capacities().len() <= self.limit(),
            self.contents().len() == self.capacities().len(),
            forall|i: int| 0 <= i < self.contents().len() ==> (#[trigger] self.contents()[i]).len() == 0,
    {
        assert forall|i: int| 0 <= i < self.contents().len() implies (#[trigger] self.contents()[i]).len() == 0 by {
            assert(self.contents()[i] == bytes_contents(self.pool@[i].buf));
        }
    }

    /// Whether a pooled buffer has room for `size` bytes, so that
    /// `acquire(size)` takes it instead of making a new one.
    pub fn has_fit(&self, size: usize) -> (r: bool)
        ensures
            r == !no_fit(self.capacities(), size),
    {
        let ghost caps = self.capacities();
        let mut i: usize = 0;
        while i < self.pool.len()
            invariant
                caps == self.capacities(),
                caps.len() == self.pool@.len(),
                i <= self.pool.len(),
                forall|j: int| 0 <= j < i ==> caps[j] < size,
            decreases self.pool.len() - i,
        {
            assert(caps[i as int] == self.pool@[i as int].capacity);
            if self.pool[i].capacity >= size {
                return true;
            }
            i = i + 1;
        }
        false
    }

    /// The pool keeps at most `limit()` buffers, all of them empty.
    pub closed spec fn wf(&self) -> bool {
        &&& self.pool@.len() <= self.max_buffers
        &&& forall|i: int| 0 <= i < self.pool@.len() ==>
                bytes_contents(#[trigger] self.pool@[i].buf) == Seq::<u8>::empty()
    }

    /// Creates an empty pool that keeps at most `max_buffers` buffers and
    /// makes new ones with capacity `buffer_size`.
    pub fn new(max_buffers: usize, buffer_size: usize) -> (r: Self)
        ensures
            r.wf(),
            r.capacities() == Seq::<usize>::empty(),
            r.default_capacity() == buffer_size,
            r.limit() == max_buffers,
    {
        let r = BufferPool { pool: Vec::new(), buffer_size, max_buffers };
        assert(r.capacities() =~= Seq::<usize>::empty());
        r
    }

    /// Acquires an empty buffer with at least `size` capacity: the first
    /// pooled buffer that is large enough (it leaves the pool and is handed
    /// out as it is, already empty), or else, leaving the pool as it was, a
    /// new one made with capacity `max(size, default_capacity())`, which must
    /// then not exceed `isize::MAX`.
    pub fn acquire(&mut self, size: usize) -> (b: BytesMut)
        requires
            old(self).wf(),
            no_fit(old(self).capacities(), size) ==> size <= isize::MAX && old(
                self,
            ).default_capacity() <= isize::MAX,
        ensures
            final(self).wf(),
            bytes_contents(b) == Seq::<u8>::empty(),
            final(self).capacities() == acquired(old(self).capacities(), size),
            final(self).default_capacity() == old(self).default_capacity(),
            final(self).limit() == old(self).limit(),
            !no_fit(old(self).capacities(), size) ==> first_fit(old(self).capacities(), size, fit_index(old(self).capacities(), size))
                && b == old(self).buffers()[fit_index(old(self).capacities(), size)]
                && final(self).buffers() == old(self).buffers().remove(fit_index(old(self).capacities(), size)),
            no_fit(old(self).capacities(), size) ==> *final(self) == *old(self)
                && made_capacity(b) == (if size >= old(self).default_capacity() { size } else { old(self).default_capacity() }),
    {
        let ghost caps = self.capacities();
        let ghost orig = self.pool@;
        let mut i: usize = 0;
        while i < self.pool.len()
            invariant
                *self == *old(self),
                self.pool@ == orig,
                self.wf(),
                self.buffer_size == old(self).buffer_size,
                self.max_buffers == old(self).max_buffers,
                no_fit(caps, size) ==> size <= isize::MAX && self.buffer_size <= isize::MAX,
                self.capacities() == caps,
                caps == old(self).capacities(),
                caps.len() == self.pool@.len(),
                i <= self.pool.len(),
                forall|j: int| 0 <= j < i ==> caps[j] < size,
            decreases self.pool.len() - i,
        {
            assert(caps[i as int] == self.pool@[i as int].capacity);
            if self.pool[i].capacity >= size {
                assert(first_fit(caps, size, i as int));
                proof {
                    lemma_first_fit_unique(caps, size, i as int);
                }
                assert(fit_index(caps, size) == i);
                let ghost bufs = self.buffers();
                let taken = self.pool.remove(i);
                let mut b = taken.buf;
                assert(bytes_contents(b) == Seq::<u8>::empty());
                bytes_clear(&mut b);
                assert(self.capacities() =~= caps.remove(i as int));
                assert(self.buffers() =~= bufs.remove(i as int));
                assert forall|k: int| 0 <= k < self.pool@.len() implies bytes_contents(
                    #[trigger] self.pool@[k].buf,
                ) == Seq::<u8>::empty() by {
                    if k < i {
                        assert(self.pool@[k] == orig[k]);
                    } else {
                        assert(self.pool@[k] == orig[k + 1]);
                    }
                }
                return b;
            }
            i = i + 1;
        }
        assert(no_fit(caps, size));
        assert(!exists|k: int| first_fit(caps, size, k));
        let cap = if size >= self.buffer_size { size } else { self.buffer_size };
        bytes_with_capacity(cap)
    }

    /// Releases a buffer back to the pool if it has space; the pool keeps it
    /// emptied, under the capacity the buffer reports. A full pool drops the
    /// buffer and stays as it was.
    pub fn release(&mut self, buf: BytesMut)
        requires
            old(self).wf(),
        ensures
            final(self).wf(),
            exists|c: usize| final(self).capacities() == #[trigger] released(old(self).capacities(), c, old(self).limit()),
            old(self).capacities().len() < old(self).limit() ==> final(self).capacities().len() == old(self).capacities().len() + 1
                && final(self).contents() == old(self).contents().push(Seq::<u8>::empty()),
            old(self).capacities().len() < old(self).limit() ==> final(self).buffers().len() == old(self).buffers().len() + 1
                && final(self).buffers().take(old(self).buffers().len() as int) == old(self).buffers()
                && (bytes_contents(buf).len() == 0 ==> final(self).buffers().last() == buf
                    && final(self).capacities().last() >= made_capacity(buf)),
            old(self).capacities().len() >= old(self).limit() ==> *final(self) == *old(self),
            final(self).default_capacity() == old(self).default_capacity(),
            final(self).limit() == old(self).limit(),
    {
        if self.pool.len() < self.max_buffers {
            let mut buf = buf;
            bytes_clear(&mut buf);
            let capacity = bytes_capacity(&buf);
            let ghost caps = self.capacities();
            let ghost cs = self.contents();
            let ghost bs = self.buffers();
            let ghost kept = buf;
            self.pool.push(PooledBuffer { buf, capacity });
            assert(self.contents() =~= cs.push(Seq::<u8>::empty()));
            assert(self.buffers() =~= bs.push(kept));
            assert(self.buffers().take(bs.len() as int) =~= bs);
            assert(self.capacities() =~= released(caps, capacity, self.max_buffers));
            assert(self.capacities() == released(old(self).capacities(), capacity, old(self).limit()));
            assert forall|k: int| 0 <= k < self.pool@.len() implies bytes_contents(
                #[trigger] self.pool@[k].buf,
            ) == Seq::<u8>::empty() by {
                if k < caps.len() {
                    assert(self.pool@[k] == old(self).pool@[k]);
                }
            }
        } else {
            assert(self.capacities() == released(old(self).capacities(), 0, old(self).limit()));
        }
    }

    /// Clears all buffers from the pool.
    pub fn clear(&mut self)
        requires
            old(self).wf(),
        ensures
            final(self).wf(),
            final(self).capacities() == Seq::<usize>::empty(),
            final(self).default_capacity() == old(self).default_capacity(),
            final(self).limit() == old(self).limit(),
    {
        self.pool.clear();
        assert(self.capacities() =~= Seq::<usize>::empty());
    }
}

/// At most one index is the first fit.
proof fn lemma_first_fit_unique(caps: Seq<usize>, size: usize, i: int)
    requires
        first_fit(caps, size, i),
    ensures
        forall|k: int| first_fit(caps, size, k) ==> k == i,
        acquired(caps, size) == caps.remove(i),
{
    assert forall|k: int| first_fit(caps, size, k) implies k == i by {
        if k < i {
            assert(caps[k] < size);
        } else if k > i {
            assert(caps[i] < size);
        }
    }
}


/// A buffer handed back to a pool with room, when no pooled buffer was large
/// enough for `size` but this one is, is the one the next `acquire(size)`
/// takes (the last one pooled): the pool returns to what it held before.
pub proof fn lemma_release_then_acquire(caps: Seq<usize>, cap: usize, max: usize, size: usize)
    requires
        caps.len() < max,
        no_fit(caps, size),
        cap >= size,
    ensures
        !no_fit(released(caps, cap, max), size),
        fit_index(released(caps, cap, max), size) == caps.len(),
        acquired(released(caps, cap, max), size) == caps,
{
    let r = released(caps, cap, max);
    let i = caps.len() as int;
    assert(first_fit(r, size, i));
    lemma_first_fit_unique(r, size, i);
    assert(r.remove(i) =~= caps);
}

/// A pool never holds more buffers than its limit, whatever is released.
pub proof fn lemma_release_bounded(caps: Seq<usize>, cap: usize, max: usize)
    requires
        caps.len() <= max,
    ensures
        released(caps, cap, max).len() <= max,
{
}

} // verus!
