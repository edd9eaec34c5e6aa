//! Reuse of device buffers.
//!
//! Buffers are kept by size class. A class is a power of two. A buffer is
//! filed under the greatest class that it is large enough for, and a request
//! is served from the class of its size rounded up, the buffer that was given
//! back last first, so that no request gets a buffer that is too small.
//! Buffers are known here by their handles.

use vstd::arithmetic::power2::{lemma2_to64, lemma_pow2_adds, lemma_pow2_strictly_increases, pow2};
use vstd::prelude::*;

verus! {

/// Whether `n` is a power of two.
pub open spec fn power_of_two(n: nat) -> bool {
    exists|k: nat| n == #[trigger] pow2(k)
}

/// Whether `class` is the size class of `size`: the smallest power of two
/// that is no smaller, and 0 for 0.
pub open spec fn is_class_of(class: usize, size: usize) -> bool {
    if size == 0 {
        class == 0
    } else {
        power_of_two(class as nat) && size <= class < 2 * size
    }
}

/// A size has one class.
pub proof fn class_is_unique(a: usize, b: usize, size: usize)
    requires
        is_class_of(a, size),
        is_class_of(b, size),
    ensures
        a == b,
{
    if size > 0 {
        let j = choose|k: nat| a as nat == #[trigger] pow2(k);
        let k = choose|k: nat| b as nat == #[trigger] pow2(k);
        lemma2_to64();
        if j < k {
            lemma_pow2_adds(1, j);
            if j + 1 < k {
                lemma_pow2_strictly_increases(j + 1, k);
            }
        } else if k < j {
            lemma_pow2_adds(1, k);
            if k + 1 < j {
                lemma_pow2_strictly_increases(k + 1, j);
            }
        }
    }
}

/// The size class of a request.
pub fn bucket_size(size: usize) -> (class: usize)
    requires
        size <= usize::MAX / 2 + 1,
    ensures
        is_class_of(class, size),
{
    if size == 0 {
        return 0;
    }
    let mut class: usize = 1;
    proof {
        lemma2_to64();
        assert(class as nat == pow2(0));
    }
    while class < size
        invariant
            size <= usize::MAX / 2 + 1,
            0 < class,
            class < 2 * size,
            power_of_two(class as nat),
        decreases 2 * size - class,
    {
        proof {
            let k = choose|k: nat| class as nat == #[trigger] pow2(k);
            lemma2_to64();
            lemma_pow2_adds(1, k);
            assert((2 * class) as nat == pow2(1 + k));
        }
        class = 2 * class;
    }
    class
}

/// Whether `class` is the class that a buffer of `elements` elements is filed
/// under: the greatest power of two that is no greater, and 0 for 0.
pub open spec fn is_class_within(class: usize, elements: usize) -> bool {
    if elements == 0 {
        class == 0
    } else {
        power_of_two(class as nat) && class <= elements < 2 * class
    }
}

/// The class that a buffer is filed under.
pub fn class_within(elements: usize) -> (class: usize)
    ensures
        is_class_within(class, elements),
{
    if elements == 0 {
        return 0;
    }
    let mut class: usize = 1;
    proof {
        lemma2_to64();
        assert(class as nat == pow2(0));
    }
    while class <= elements / 2
        invariant
            0 < class <= elements,
            power_of_two(class as nat),
        decreases elements - class,
    {
        proof {
            let k = choose|k: nat| class as nat == #[trigger] pow2(k);
            lemma2_to64();
            lemma_pow2_adds(1, k);
            assert((2 * class) as nat == pow2(1 + k));
        }
        class = 2 * class;
    }
    class
}

/// A new buffer of a class is filed under that class.
pub proof fn fresh_is_filed_under_its_class(class: usize, len: usize, filed: usize)
    requires
        is_class_of(class, len),
        is_class_within(filed, class),
    ensures
        filed == class,
{
    if class > 0 {
        let j = choose|k: nat| filed as nat == #[trigger] pow2(k);
        let k = choose|k: nat| class as nat == #[trigger] pow2(k);
        lemma2_to64();
        if j < k {
            lemma_pow2_adds(1, j);
            if j + 1 < k {
                lemma_pow2_strictly_increases(j + 1, k);
            }
        } else if k < j {
            lemma_pow2_strictly_increases(k, j);
        }
    }
}

/// A buffer that is free.
#[derive(Debug, Clone, Copy)]
pub struct FreeBuffer {
    /// Class that it is filed under.
    pub bucket: usize,
    pub handle: u64,
    /// Elements that it has room for.
    pub elements: usize,
}

/// The free buffers, oldest first.
pub struct FreeList {
    pub buffers: Vec<FreeBuffer>,
}

/// No buffer is smaller than its class.
pub open spec fn large_enough(buffers: Seq<FreeBuffer>) -> bool {
    forall|i: int| 0 <= i < buffers.len() ==> (#[trigger] buffers[i]).bucket <= buffers[i].elements
}

/// The free buffers of one class, oldest first.
pub open spec fn free_in(buffers: Seq<FreeBuffer>, bucket: usize) -> Seq<FreeBuffer>
    decreases buffers.len(),
{
    if buffers.len() == 0 {
        seq![]
    } else if buffers.last().bucket == bucket {
        free_in(buffers.drop_last(), bucket).push(buffers.last())
    } else {
        free_in(buffers.drop_last(), bucket)
    }
}

/// Buffers of other classes at the end do not matter to a class.
proof fn free_in_skips(buffers: Seq<FreeBuffer>, bucket: usize, i: int)
    requires
        0 <= i <= buffers.len(),
        forall|k: int| i <= k < buffers.len() ==> (#[trigger] buffers[k]).bucket != bucket,
    ensures
        free_in(buffers, bucket) == free_in(buffers.take(i), bucket),
    decreases buffers.len() - i,
{
    if i == buffers.len() {
        assert(buffers.take(i) =~= buffers);
    } else {
        assert(buffers[buffers.len() - 1].bucket != bucket);
        let init = buffers.drop_last();
        assert forall|k: int| i <= k < init.len() implies (#[trigger] init[k]).bucket
            != bucket by {
            assert(init[k] == buffers[k]);
        }
        free_in_skips(init, bucket, i);
        assert(init.take(i) =~= buffers.take(i));
    }
}

/// Taking out one buffer leaves the other classes as they are.
proof fn free_in_remove_other(buffers: Seq<FreeBuffer>, i: int, bucket: usize)
    requires
        0 <= i < buffers.len(),
        buffers[i].bucket != bucket,
    ensures
        free_in(buffers.remove(i), bucket) == free_in(buffers, bucket),
    decreases buffers.len(),
{
    let init = buffers.drop_last();
    if i == buffers.len() - 1 {
        assert(buffers.remove(i) =~= init);
    } else {
        assert(buffers.remove(i).drop_last() =~= init.remove(i));
        assert(buffers.remove(i).last() == buffers.last());
        free_in_remove_other(init, i, bucket);
    }
}

/// Taking out the last buffer of a class leaves the ones before it.
proof fn free_in_remove_last(buffers: Seq<FreeBuffer>, i: int)
    requires
        0 <= i < buffers.len(),
        forall|k: int|
            i < k < buffers.len() ==> (#[trigger] buffers[k]).bucket != buffers[i].bucket,
    ensures
        ({
            let b = buffers[i].bucket;
            &&& free_in(buffers, b).len() > 0
            &&& free_in(buffers, b).last() == buffers[i]
            &&& free_in(buffers.remove(i), b) == free_in(buffers, b).drop_last()
        }),
{
    let b = buffers[i].bucket;
    free_in_skips(buffers, b, i + 1);
    let head = buffers.take(i + 1);
    assert(head.drop_last() =~= buffers.take(i));
    assert(head.last() == buffers[i]);
    let rest = buffers.remove(i);
    assert forall|k: int| i <= k < rest.len() implies (#[trigger] rest[k]).bucket != b by {
        assert(rest[k] == buffers[k + 1]);
    }
    free_in_skips(rest, b, i);
    assert(rest.take(i) =~= buffers.take(i));
    assert(free_in(buffers, b).drop_last() =~= free_in(buffers.take(i), b));
}

impl FreeList {
    /// No free buffer.
    pub fn new() -> (l: Self)
        ensures
            l.buffers@ == Seq::<FreeBuffer>::empty(),
    {
        FreeList { buffers: Vec::new() }
    }

    /// Takes the buffer of a class that was given back last, where there is
    /// one.
    pub fn take(&mut self, bucket: usize) -> (r: Option<FreeBuffer>)
        ensures
            large_enough(old(self).buffers@) ==> large_enough(final(self).buffers@),
            match r {
                Some(b) => free_in(old(self).buffers@, bucket).len() > 0 && b == free_in(
                    old(self).buffers@,
                    bucket,
                ).last() && free_in(final(self).buffers@, bucket) == free_in(
                    old(self).buffers@,
                    bucket,
                ).drop_last() && final(self).buffers@.len() + 1 == old(self).buffers@.len()
                    && forall|c: usize|
                    c != bucket ==> #[trigger] free_in(final(self).buffers@, c) == free_in(
                        old(self).buffers@,
                        c,
                    ),
                None => free_in(old(self).buffers@, bucket).len() == 0 && final(self).buffers@
                    == old(self).buffers@,
            },
    {
        let mut i: usize = self.buffers.len();
        while i > 0
            invariant
                i <= self.buffers@.len(),
                self.buffers@ == old(self).buffers@,
                forall|k: int|
                    i <= k < self.buffers@.len() ==> (#[trigger] self.buffers@[k]).bucket != bucket,
            decreases i,
        {
            i = i - 1;
            if self.buffers[i].bucket == bucket {
                let ghost before = self.buffers@;
                let b: FreeBuffer = self.buffers.remove(i);
                proof {
                    free_in_remove_last(before, i as int);
                    assert forall|c: usize| c != bucket implies #[trigger] free_in(
                        self.buffers@,
                        c,
                    ) == free_in(before, c) by {
                        free_in_remove_other(before, i as int, c);
                    }
                }
                return Some(b);
            }
        }
        proof {
            free_in_skips(self.buffers@, bucket, 0);
            assert(self.buffers@.take(0) =~= seq![]);
        }
        None
    }

    /// Gives a buffer of a class back.
    pub fn give(&mut self, b: FreeBuffer)
        ensures
            large_enough(old(self).buffers@) && b.bucket <= b.elements ==> large_enough(
                final(self).buffers@,
            ),
            free_in(final(self).buffers@, b.bucket) == free_in(old(self).buffers@, b.bucket).push(
                b,
            ),
            final(self).buffers@.len() == old(self).buffers@.len() + 1,
            forall|c: usize|
                c != b.bucket ==> #[trigger] free_in(final(self).buffers@, c) == free_in(
                    old(self).buffers@,
                    c,
                ),
    {
        let ghost before = self.buffers@;
        self.buffers.push(b);
        assert(self.buffers@.drop_last() =~= before);
    }
}

/// How a request is served.
#[derive(Debug, Clone, Copy, PartialEq, Eq, Structural)]
pub enum Allocation {
    /// By the free buffer with this handle.
    Reuse(u64),
    /// By a new buffer of this many elements.
    Fresh(usize),
}

/// The free buffers of a device: those of 32-bit floats and those of bytes.
pub struct BufferPool {
    pub f32_pool: FreeList,
    pub u8_pool: FreeList,
}

impl BufferPool {
    /// No free buffer is smaller than the class that it is filed under.
    pub open spec fn well_formed(&self) -> bool {
        large_enough(self.f32_pool.buffers@) && large_enough(self.u8_pool.buffers@)
    }

    /// A pool without buffers.
    pub fn new() -> (p: Self)
        ensures
            p.well_formed(),
            p.f32_pool.buffers@ == Seq::<FreeBuffer>::empty(),
            p.u8_pool.buffers@ == Seq::<FreeBuffer>::empty(),
    {
        BufferPool { f32_pool: FreeList::new(), u8_pool: FreeList::new() }
    }

    /// Serves a request for `len` floats by a buffer that has room for them.
    pub fn alloc_f32(&mut self, len: usize) -> (a: Allocation)
        requires
            old(self).well_formed(),
            len <= usize::MAX / 2 + 1,
        ensures
            final(self).well_formed(),
            final(self).u8_pool == old(self).u8_pool,
            exists|class: usize| #[trigger]
                is_class_of(class, len) && served(
                    old(self).f32_pool.buffers@,
                    final(self).f32_pool.buffers@,
                    class,
                    a,
                ),
            a matches Allocation::Reuse(h) ==> exists|i: int|
                0 <= i < old(self).f32_pool.buffers@.len() && (
                #[trigger] old(self).f32_pool.buffers@[i]).handle == h
                    && old(self).f32_pool.buffers@[i].elements >= len,
            a matches Allocation::Fresh(n) ==> n >= len,
    {
        let class: usize = bucket_size(len);
        let ghost before = self.f32_pool.buffers@;
        match self.f32_pool.take(class) {
            Some(b) => {
                proof {
                    free_in_is_listed(before, class, free_in(before, class).len() - 1);
                }
                Allocation::Reuse(b.handle)
            },
            None => Allocation::Fresh(class),
        }
    }

    /// Serves a request for `len` bytes by a buffer that has room for them.
    pub fn alloc_bytes(&mut self, len: usize) -> (a: Allocation)
        requires
            old(self).well_formed(),
            len <= usize::MAX / 2 + 1,
        ensures
            final(self).well_formed(),
            final(self).f32_pool == old(self).f32_pool,
            exists|class: usize| #[trigger]
                is_class_of(class, len) && served(
                    old(self).u8_pool.buffers@,
                    final(self).u8_pool.buffers@,
                    class,
                    a,
                ),
            a matches Allocation::Reuse(h) ==> exists|i: int|
                0 <= i < old(self).u8_pool.buffers@.len() && (
                #[trigger] old(self).u8_pool.buffers@[i]).handle == h
                    && old(self).u8_pool.buffers@[i].elements >= len,
            a matches Allocation::Fresh(n) ==> n >= len,
    {
        let class: usize = bucket_size(len);
        let ghost before = self.u8_pool.buffers@;
        match self.u8_pool.take(class) {
            Some(b) => {
                proof {
                    free_in_is_listed(before, class, free_in(before, class).len() - 1);
                }
                Allocation::Reuse(b.handle)
            },
            None => Allocation::Fresh(class),
        }
    }

    /// Takes back a buffer that has room for `elements` floats.
    pub fn return_f32(&mut self, elements: usize, handle: u64)
        requires
            old(self).well_formed(),
        ensures
            final(self).well_formed(),
            final(self).u8_pool == old(self).u8_pool,
            exists|class: usize| #[trigger]
                is_class_within(class, elements) && given_back(
                    old(self).f32_pool.buffers@,
                    final(self).f32_pool.buffers@,
                    (FreeBuffer { bucket: class, handle, elements }),
                ),
    {
        let bucket: usize = class_within(elements);
        self.f32_pool.give(FreeBuffer { bucket, handle, elements });
    }

    /// Takes back a buffer that has room for `elements` bytes.
    pub fn return_bytes(&mut self, elements: usize, handle: u64)
        requires
            old(self).well_formed(),
        ensures
            final(self).well_formed(),
            final(self).f32_pool == old(self).f32_pool,
            exists|class: usize| #[trigger]
                is_class_within(class, elements) && given_back(
                    old(self).u8_pool.buffers@,
                    final(self).u8_pool.buffers@,
                    (FreeBuffer { bucket: class, handle, elements }),
                ),
    {
        let bucket: usize = class_within(elements);
        self.u8_pool.give(FreeBuffer { bucket, handle, elements });
    }

    /// Number of free buffers.
    pub fn cached_count(&self) -> (n: usize)
        requires
            self.f32_pool.buffers@.len() + self.u8_pool.buffers@.len() <= usize::MAX,
        ensures
            n == self.f32_pool.buffers@.len() + self.u8_pool.buffers@.len(),
    {
        self.f32_pool.buffers.len() + self.u8_pool.buffers.len()
    }
}

/// How a request of a class changes the free buffers and what it gets.
pub open spec fn served(
    before: Seq<FreeBuffer>,
    after: Seq<FreeBuffer>,
    class: usize,
    a: Allocation,
) -> bool {
    if free_in(before, class).len() > 0 {
        &&& a == Allocation::Reuse(free_in(before, class).last().handle)
        &&& free_in(after, class) == free_in(before, class).drop_last()
        &&& forall|c: usize| c != class ==> #[trigger] free_in(after, c) == free_in(before, c)
        &&& after.len() + 1 == before.len()
    } else {
        a == Allocation::Fresh(class) && after == before
    }
}

/// How taking a buffer back changes the free buffers.
pub open spec fn given_back(
    before: Seq<FreeBuffer>,
    after: Seq<FreeBuffer>,
    b: FreeBuffer,
) -> bool {
    &&& free_in(after, b.bucket) == free_in(before, b.bucket).push(b)
    &&& forall|c: usize| c != b.bucket ==> #[trigger] free_in(after, c) == free_in(before, c)
    &&& after.len() == before.len() + 1
}

/// A free buffer of a class is one of the free buffers, and filed under it.
proof fn free_in_is_listed(buffers: Seq<FreeBuffer>, bucket: usize, k: int) -> (i: int)
    requires
        0 <= k < free_in(buffers, bucket).len(),
    ensures
        0 <= i < buffers.len(),
        buffers[i] == free_in(buffers, bucket)[k],
        buffers[i].bucket == bucket,
    decreases buffers.len(),
{
    let init = buffers.drop_last();
    if k < free_in(init, bucket).len() {
        let i = free_in_is_listed(init, bucket, k);
        assert(buffers[i] == init[i]);
        i
    } else {
        buffers.len() - 1
    }
}

/// What is served has room for what was asked for: the reused buffer is the
/// one that was given back last in the class, and a new one is as large as
/// the class.
pub proof fn served_has_room(
    before: Seq<FreeBuffer>,
    after: Seq<FreeBuffer>,
    class: usize,
    len: usize,
    a: Allocation,
)
    requires
        large_enough(before),
        is_class_of(class, len),
        served(before, after, class, a),
    ensures
        a matches Allocation::Reuse(h) ==> free_in(before, class).last().handle == h && free_in(
            before,
            class,
        ).last().elements >= len,
        a matches Allocation::Fresh(n) ==> n >= len,
{
    if free_in(before, class).len() > 0 {
        let i = free_in_is_listed(before, class, free_in(before, class).len() - 1);
        assert(before[i].bucket <= before[i].elements);
    }
}

/// A buffer that was given back serves the next request of its class, and the
/// pool is then as it was before.
pub proof fn given_back_is_reused(
    before: Seq<FreeBuffer>,
    between: Seq<FreeBuffer>,
    after: Seq<FreeBuffer>,
    b: FreeBuffer,
    a: Allocation,
)
    requires
        given_back(before, between, b),
        served(between, after, b.bucket, a),
    ensures
        a == Allocation::Reuse(b.handle),
        forall|c: usize| #[trigger] free_in(after, c) == free_in(before, c),
{
    assert(free_in(before, b.bucket).push(b).drop_last() =~= free_in(before, b.bucket));
    assert forall|c: usize| #[trigger] free_in(after, c) == free_in(before, c) by {
        if c != b.bucket {
            assert(free_in(between, c) == free_in(before, c));
        }
    }
}

/// No buffer is free twice.
pub open spec fn free_once(buffers: Seq<FreeBuffer>) -> bool {
    forall|c: usize, i: int, d: usize, j: int|
        0 <= i < free_in(buffers, c).len() && 0 <= j < free_in(buffers, d).len() && (
        #[trigger] free_in(buffers, c)[i]).handle == (#[trigger] free_in(buffers, d)[j]).handle
            ==> c == d && i == j
}

/// A buffer that serves a request is free no longer, so that no request gets
/// it until it is given back.
pub proof fn reused_is_not_free(
    before: Seq<FreeBuffer>,
    after: Seq<FreeBuffer>,
    class: usize,
    handle: u64,
)
    requires
        free_once(before),
        served(before, after, class, Allocation::Reuse(handle)),
    ensures
        free_once(after),
        forall|c: usize, i: int|
            0 <= i < free_in(after, c).len() ==> (#[trigger] free_in(after, c)[i]).handle != handle,
{
    let own = free_in(before, class);
    assert(own[own.len() - 1].handle == handle);
    assert forall|c: usize, i: int| 0 <= i < free_in(after, c).len() implies i < free_in(
        before,
        c,
    ).len() && #[trigger] free_in(after, c)[i] == free_in(before, c)[i] by {
        if c != class {
            assert(free_in(after, c) == free_in(before, c));
        }
    }
    assert forall|c: usize, i: int| 0 <= i < free_in(after, c).len() implies (
    #[trigger] free_in(after, c)[i]).handle != handle by {
        if free_in(after, c)[i].handle == handle {
            assert(free_in(before, c)[i].handle == own[own.len() - 1].handle);
        }
    }
}

/// Buffers are filed one by one, oldest first: what two lists together have of
/// a class is what each has.
pub proof fn free_in_of_both(a: Seq<FreeBuffer>, b: Seq<FreeBuffer>, bucket: usize)
    ensures
        free_in(a + b, bucket) == free_in(a, bucket) + free_in(b, bucket),
    decreases b.len(),
{
    if b.len() == 0 {
        assert(a + b =~= a);
        assert(free_in(a, bucket) + free_in(b, bucket) =~= free_in(a, bucket));
    } else {
        free_in_of_both(a, b.drop_last(), bucket);
        assert((a + b).drop_last() =~= a + b.drop_last());
        assert((a + b).last() == b.last());
        assert(free_in(a + b, bucket) =~= free_in(a, bucket) + free_in(b, bucket));
    }
}

/// A buffer is of the class that it is filed under, and of no other.
pub proof fn free_in_of_one(x: FreeBuffer, bucket: usize)
    ensures
        free_in(seq![x], bucket) == (if x.bucket == bucket {
            seq![x]
        } else {
            Seq::<FreeBuffer>::empty()
        }),
{
    assert(seq![x].drop_last() =~= Seq::<FreeBuffer>::empty());
    assert(free_in(seq![x].drop_last(), bucket) =~= Seq::<FreeBuffer>::empty());
    assert(free_in(seq![x], bucket) =~= (if x.bucket == bucket {
        seq![x]
    } else {
        Seq::<FreeBuffer>::empty()
    }));
}

} // verus!
