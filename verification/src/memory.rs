use vstd::prelude::*;

use crate::error::{ServerError, ServerResult};

verus! {

/// The number of `true` entries in a sequence of flags.
pub open spec fn count_true(s: Seq<bool>) -> int
    decreases s.len(),
{
    if s.len() == 0 {
        0
    } else {
        count_true(s.drop_last()) + if s.last() {
            1int
        } else {
            0int
        }
    }
}

pub proof fn lemma_count_true_bounds(s: Seq<bool>)
    ensures
        0 <= count_true(s) <= s.len(),
    decreases s.len(),
{
    if s.len() > 0 {
        lemma_count_true_bounds(s.drop_last());
    }
}

pub proof fn lemma_count_true_update(s: Seq<bool>, i: int, v: bool)
    requires
        0 <= i < s.len(),
    ensures
        count_true(s.update(i, v)) == count_true(s) - (if s[i] {
            1int
        } else {
            0int
        }) + (if v {
            1int
        } else {
            0int
        }),
    decreases s.len(),
{
    if i == s.len() - 1 {
        assert(s.update(i, v).drop_last() =~= s.drop_last());
    } else {
        assert(s.update(i, v).drop_last() =~= s.drop_last().update(i, v));
        lemma_count_true_update(s.drop_last(), i, v);
    }
}

pub proof fn lemma_count_true_append(s: Seq<bool>, t: Seq<bool>)
    ensures
        count_true(s + t) == count_true(s) + count_true(t),
    decreases t.len(),
{
    if t.len() == 0 {
        assert(s + t =~= s);
    } else {
        assert((s + t).drop_last() =~= s + t.drop_last());
        lemma_count_true_append(s, t.drop_last());
    }
}

pub proof fn lemma_count_true_all_false(n: nat)
    ensures
        count_true(Seq::new(n, |i: int| false)) == 0,
    decreases n,
{
    if n > 0 {
        assert(Seq::new(n, |i: int| false).drop_last() =~= Seq::new(
            (n - 1) as nat,
            |i: int| false,
        ));
        lemma_count_true_all_false((n - 1) as nat);
    }
}

/// Mathematical model of a pool: which block indices are in use, and the
/// uniform block size of this pool.
pub struct PoolModel {
    pub blocks: Seq<bool>,
    pub block_size: int,
}

impl PoolModel {
    pub open spec fn capacity(self) -> int {
        self.blocks.len() as int
    }

    pub open spec fn in_use(self) -> int {
        count_true(self.blocks)
    }

    pub open spec fn full(self) -> bool {
        forall|j: int| 0 <= j < self.blocks.len() ==> self.blocks[j]
    }
}

/// How a pool changes when one block is allocated: the first free block is
/// marked in use; when none is free the pool first grows by
/// `max(capacity / 2, 1)` fresh blocks and hands out the first of them.
pub open spec fn pool_alloc_post(o: PoolModel, n: PoolModel, addr: int) -> bool {
    &&& n.block_size == o.block_size
    &&& if !o.full() {
        &&& 0 <= addr < o.blocks.len()
        &&& !o.blocks[addr]
        &&& forall|j: int| 0 <= j < addr ==> o.blocks[j]
        &&& n.blocks == o.blocks.update(addr, true)
    } else {
        let add = if o.capacity() / 2 > 1 {
            o.capacity() / 2
        } else {
            1
        };
        &&& addr == o.capacity()
        &&& n.blocks == (o.blocks + Seq::new(add as nat, |i: int| false)).update(addr, true)
    }
}

/// Overflow guard for geometric pool growth: only needed when every block is
/// in use.
pub open spec fn pool_growth_fits(m: PoolModel) -> bool {
    m.full() ==> m.capacity() + m.capacity() / 2 + 1 <= usize::MAX
}

/// A memory pool handing out fixed-size blocks, identified by index. The
/// pool tracks which blocks are in use and grows geometrically when it runs
/// dry; the bytes of an allocation are carried by the handle that owns it.
pub struct MemoryPool {
    blocks: Vec<bool>,
    block_size: usize,
    capacity: usize,
    in_use: usize,
    size_class: usize,
}

impl View for MemoryPool {
    type V = PoolModel;

    closed spec fn view(&self) -> PoolModel {
        PoolModel { blocks: self.blocks@, block_size: self.block_size as int }
    }
}

impl MemoryPool {
    pub open spec fn inv(&self) -> bool {
        &&& self.spec_capacity() == self@.capacity()
        &&& self.spec_in_use() == self@.in_use()
        &&& self.spec_size_class() == self@.block_size
    }

    pub closed spec fn spec_capacity(&self) -> int {
        self.capacity as int
    }

    pub closed spec fn spec_in_use(&self) -> int {
        self.in_use as int
    }

    pub closed spec fn spec_size_class(&self) -> int {
        self.size_class as int
    }

    /// Create a new pool of `initial_blocks` free blocks of `block_size`
    /// bytes each; the size class of the pool is its block size.
    pub fn new(block_size: usize, initial_blocks: usize) -> (r: MemoryPool)
        ensures
            r.inv(),
            r@.blocks == Seq::new(initial_blocks as nat, |i: int| false),
            r@.block_size == block_size,
            r@.in_use() == 0,
            r@.capacity() == initial_blocks,
    {
        let r = MemoryPool {
            blocks: vec![false; initial_blocks],
            block_size,
            capacity: initial_blocks,
            in_use: 0,
            size_class: block_size,
        };
        proof {
            assert(r@.blocks =~= Seq::new(initial_blocks as nat, |i: int| false));
            lemma_count_true_all_false(initial_blocks as nat);
        }
        r
    }

    /// Allocate a block: the lowest-numbered free block is marked in use and
    /// its index returned; when the pool is full it first grows by
    /// `max(capacity / 2, 1)` blocks. Allocation always succeeds.
    pub fn allocate(&mut self) -> (r: ServerResult<usize>)
        requires
            old(self).inv(),
            pool_growth_fits(old(self)@),
        ensures
            final(self).inv(),
            r matches Ok(addr) && pool_alloc_post(old(self)@, final(self)@, addr as int),
            final(self)@.in_use() == old(self)@.in_use() + 1,
            final(self)@.capacity() >= old(self)@.capacity(),
    {
        let ghost m0 = self@;
        let ghost iu0: int = self.in_use as int;
        let ghost cap0: int = self.capacity as int;
        let ghost sc0: int = self.size_class as int;
        proof {
            lemma_count_true_bounds(m0.blocks);
        }
        let n = self.blocks.len();
        let mut i: usize = 0;
        #[verifier::loop_isolation(false)]
        while i < n
            invariant
                i <= n,
                n == self.blocks@.len(),
                self@ == m0,
                self.in_use as int == iu0,
                self.capacity as int == cap0,
                self.size_class as int == sc0,
                iu0 == count_true(m0.blocks),
                cap0 == m0.capacity(),
                sc0 == m0.block_size,
                forall|j: int| 0 <= j < i ==> self.blocks@[j],
            decreases n - i,
        {
            if !self.blocks[i] {
                self.blocks[i] = true;
                proof {
                    assert(!m0.blocks[i as int]);
                    assert(!m0.full());
                    assert(self.blocks@ =~= m0.blocks.update(i as int, true));
                    lemma_count_true_update(m0.blocks, i as int, true);
                    lemma_count_true_bounds(self.blocks@);
                }
                self.in_use = self.in_use + 1;
                return Ok(i);
            }
            i += 1;
        }
        // Every block is in use: grow, then hand out the first fresh block.
        proof {
            assert(m0.full());
        }
        let additional = if self.capacity / 2 > 1 {
            self.capacity / 2
        } else {
            1
        };
        let addr = self.capacity;
        let mut k: usize = 0;
        while k < additional
            invariant
                k <= additional,
                self.blocks@ == m0.blocks + Seq::new(k as nat, |i: int| false),
                self.in_use as int == iu0,
                self.capacity as int == cap0,
                self.size_class as int == sc0,
                self.block_size as int == m0.block_size,
                iu0 == count_true(m0.blocks),
                cap0 == m0.capacity(),
                sc0 == m0.block_size,
                m0.full(),
                pool_growth_fits(m0),
                additional <= m0.capacity() / 2 + 1,
            decreases additional - k,
        {
            self.blocks.push(false);
            proof {
                assert(self.blocks@ =~= m0.blocks + Seq::new((k + 1) as nat, |i: int| false));
            }
            k += 1;
        }
        self.capacity = self.capacity + additional;
        proof {
            assert(self.blocks@.len() == m0.blocks.len() + additional);
        }
        let ghost grown = m0.blocks + Seq::new(additional as nat, |i: int| false);
        self.blocks[addr] = true;
        proof {
            assert(self.blocks@ =~= grown.update(addr as int, true));
            lemma_count_true_append(m0.blocks, Seq::new(additional as nat, |i: int| false));
            lemma_count_true_all_false(additional as nat);
            lemma_count_true_update(grown, addr as int, true);
            lemma_count_true_bounds(self.blocks@);
        }
        self.in_use = self.in_use + 1;
        Ok(addr)
    }

    /// Return a block to the pool. Fails with a `Memory` error exactly when
    /// the index is not a block of this pool or the block is not in use.
    pub fn deallocate(&mut self, index: usize) -> (r: ServerResult<()>)
        requires
            old(self).inv(),
        ensures
            final(self).inv(),
            final(self)@.block_size == old(self)@.block_size,
            final(self)@.capacity() == old(self)@.capacity(),
            index < old(self)@.capacity() && old(self)@.blocks[index as int] ==> {
                &&& r matches Ok(u)
                &&& final(self)@.blocks == old(self)@.blocks.update(index as int, false)
                &&& final(self)@.in_use() == old(self)@.in_use() - 1
            },
            !(index < old(self)@.capacity() && old(self)@.blocks[index as int]) ==> (r matches
                Err(e) && e is Memory) && final(self)@ == old(self)@,
    {
        let ghost m0 = self@;
        if index < self.blocks.len() {
            if self.blocks[index] {
                self.blocks[index] = false;
                proof {
                    lemma_count_true_update(m0.blocks, index as int, false);
                    lemma_count_true_bounds(self.blocks@);
                }
                self.in_use = self.in_use - 1;
                return Ok(());
            }
        }
        Err(ServerError::Memory("Block not found in pool".to_owned()))
    }

    /// Grow the pool to hold at least `new_capacity` blocks. Fails with a
    /// `Memory` error exactly when `new_capacity` is below the in-use count.
    pub fn resize(&mut self, new_capacity: usize) -> (r: ServerResult<()>)
        requires
            old(self).inv(),
        ensures
            final(self).inv(),
            final(self)@.block_size == old(self)@.block_size,
            new_capacity < old(self)@.in_use() ==> (r matches Err(e) && e is Memory) && final(self)@ == old(self)@,
            new_capacity >= old(self)@.in_use() ==> {
                &&& r matches Ok(u)
                &&& (new_capacity > old(self)@.capacity() ==> final(self)@.blocks == old(self)@.blocks + Seq::new(
                    (new_capacity - old(self)@.capacity()) as nat,
                    |i: int| false,
                ))
                &&& (new_capacity <= old(self)@.capacity() ==> final(self)@ == old(self)@)
                &&& final(self)@.in_use() == old(self)@.in_use()
            },
    {
        let ghost m0 = self@;
        if new_capacity < self.in_use {
            return Err(
                ServerError::Memory(
                    "Cannot resize pool smaller than number of blocks in use".to_owned(),
                ),
            );
        }
        if new_capacity > self.capacity {
            let additional = new_capacity - self.capacity;
            let mut k: usize = 0;
            while k < additional
                invariant
                    k <= additional,
                    self.blocks@ == m0.blocks + Seq::new(k as nat, |i: int| false),
                    self.in_use == old(self).in_use,
                    self.capacity == old(self).capacity,
                    self.size_class == old(self).size_class,
                    self.block_size == old(self).block_size,
                decreases additional - k,
            {
                self.blocks.push(false);
                proof {
                    assert(self.blocks@ =~= m0.blocks + Seq::new(
                        (k + 1) as nat,
                        |i: int| false,
                    ));
                }
                k += 1;
            }
            self.capacity = new_capacity;
            proof {
                lemma_count_true_append(m0.blocks, Seq::new(additional as nat, |i: int| false));
                lemma_count_true_all_false(additional as nat);
            }
        }
        Ok(())
    }

    /// The current total number of blocks.
    pub fn capacity(&self) -> (r: usize)
        requires
            self.inv(),
        ensures
            r == self@.capacity(),
    {
        self.capacity
    }

    /// The number of blocks currently in use.
    pub fn in_use(&self) -> (r: usize)
        requires
            self.inv(),
        ensures
            r == self@.in_use(),
    {
        self.in_use
    }

    /// The size class (block size) of this pool.
    pub fn size_class(&self) -> (r: usize)
        requires
            self.inv(),
        ensures
            r == self@.block_size,
    {
        self.size_class
    }
}

/// The configured size classes: powers of two from 16 up to 8192.
pub open spec fn spec_size_classes() -> Seq<int> {
    seq![16, 32, 64, 128, 256, 512, 1024, 2048, 4096, 8192]
}

/// The class an allocation of `size` bytes is served from: the smallest
/// configured class at least `size`, clamped to the largest class.
pub open spec fn spec_find_size_class(size: int) -> int {
    if size <= 16 {
        16
    } else if size <= 32 {
        32
    } else if size <= 64 {
        64
    } else if size <= 128 {
        128
    } else if size <= 256 {
        256
    } else if size <= 512 {
        512
    } else if size <= 1024 {
        1024
    } else if size <= 2048 {
        2048
    } else if size <= 4096 {
        4096
    } else {
        8192
    }
}

/// The index of `spec_find_size_class(size)` among the configured classes.
pub open spec fn spec_class_index(size: int) -> int {
    if size <= 16 {
        0
    } else if size <= 32 {
        1
    } else if size <= 64 {
        2
    } else if size <= 128 {
        3
    } else if size <= 256 {
        4
    } else if size <= 512 {
        5
    } else if size <= 1024 {
        6
    } else if size <= 2048 {
        7
    } else if size <= 4096 {
        8
    } else {
        9
    }
}

/// A memory allocator managing one pool per size class.
pub struct MemoryAllocator {
    pools: Vec<MemoryPool>,
    size_classes: Vec<usize>,
}

impl MemoryAllocator {
    /// The models of the per-class pools, in class order.
    pub closed spec fn pools_model(&self) -> Seq<PoolModel> {
        Seq::new(self.pools@.len() as nat, |i: int| self.pools@[i]@)
    }

    pub closed spec fn inv(&self) -> bool {
        &&& self.pools@.len() == 10
        &&& self.size_classes@.len() == 10
        &&& forall|i: int|
            0 <= i < 10 ==> (#[trigger] self.size_classes@[i]) as int == spec_size_classes()[i]
        &&& forall|i: int| 0 <= i < 10 ==> (#[trigger] self.pools@[i]).inv()
        &&& forall|i: int|
            0 <= i < 10 ==> (#[trigger] self.pools@[i])@.block_size == spec_size_classes()[i]
    }

    /// Create an allocator with one pool of 16 initial blocks for each
    /// power-of-two size class from 16 to 8192 bytes.
    pub fn new() -> (r: MemoryAllocator)
        ensures
            r.inv(),
            forall|i: int|
                0 <= i < 10 ==> (#[trigger] r.pools_model()[i]).in_use() == 0
                    && r.pools_model()[i].capacity() == 16,
    {
        let mut size_classes: Vec<usize> = Vec::new();
        let mut pools: Vec<MemoryPool> = Vec::new();
        let mut size: usize = 16;
        while size <= 8192
            invariant
                size_classes@.len() == pools@.len(),
                size_classes@.len() <= 10,
                size_classes@.len() < 10 ==> size as int == spec_size_classes()[size_classes@.len() as int],
                size_classes@.len() == 10 ==> size == 16384,
                forall|i: int|
                    0 <= i < size_classes@.len() ==> (#[trigger] size_classes@[i]) as int
                        == spec_size_classes()[i],
                forall|i: int| 0 <= i < pools@.len() ==> (#[trigger] pools@[i]).inv(),
                forall|i: int|
                    0 <= i < pools@.len() ==> (#[trigger] pools@[i])@.block_size
                        == spec_size_classes()[i],
                forall|i: int|
                    0 <= i < pools@.len() ==> (#[trigger] pools@[i])@.in_use() == 0 && pools@[i]@.capacity() == 16,
            decreases 16384 - size,
        {
            size_classes.push(size);
            pools.push(MemoryPool::new(size, 16));
            size = size * 2;
        }
        MemoryAllocator { pools, size_classes }
    }

    /// The smallest configured size class that can hold `size` bytes; sizes
    /// beyond the largest class clamp to the largest.
    pub fn find_size_class(&self, size: usize) -> (r: usize)
        ensures
            r as int == spec_find_size_class(size as int),
    {
        if size <= 16 {
            16
        } else if size <= 32 {
            32
        } else if size <= 64 {
            64
        } else if size <= 128 {
            128
        } else if size <= 256 {
            256
        } else if size <= 512 {
            512
        } else if size <= 1024 {
            1024
        } else if size <= 2048 {
            2048
        } else if size <= 4096 {
            4096
        } else {
            8192
        }
    }

    fn class_index(&self, size: usize) -> (r: usize)
        ensures
            r < 10,
            r as int == spec_class_index(size as int),
    {
        if size <= 16 {
            0
        } else if size <= 32 {
            1
        } else if size <= 64 {
            2
        } else if size <= 128 {
            3
        } else if size <= 256 {
            4
        } else if size <= 512 {
            5
        } else if size <= 1024 {
            6
        } else if size <= 2048 {
            7
        } else if size <= 4096 {
            8
        } else {
            9
        }
    }

    /// Allocate `size` bytes: the pool of the selected size class hands out
    /// its first free block, and the call returns that block's index along
    /// with the size class served.
    pub fn allocate(&mut self, size: usize) -> (r: ServerResult<(usize, usize)>)
        requires
            old(self).inv(),
            pool_growth_fits(old(self).pools_model()[spec_class_index(size as int)]),
        ensures
            final(self).inv(),
            r matches Ok(p) && {
                let idx = spec_class_index(size as int);
                &&& p.1 as int == spec_find_size_class(size as int)
                &&& pool_alloc_post(
                    old(self).pools_model()[idx],
                    final(self).pools_model()[idx],
                    p.0 as int,
                )
                &&& forall|j: int|
                    0 <= j < 10 && j != idx ==> final(self).pools_model()[j] == old(self).pools_model()[j]
            },
    {
        let size_class = self.find_size_class(size);
        let idx = self.class_index(size);
        let ghost pm0 = self.pools_model();
        match self.pools[idx].allocate() {
            Ok(addr) => {
                proof {
                    assert forall|j: int| 0 <= j < 10 && j != spec_class_index(size as int)
                        implies self.pools_model()[j] == pm0[j] by {
                        assert(self.pools@[j] == old(self).pools@[j]);
                    }
                }
                Ok((addr, size_class))
            },
            Err(e) => Err(e),
        }
    }

    /// Return the block `addr` of size class `size_class` to its pool. Fails
    /// with a `Memory` error exactly when `size_class` is not a configured
    /// class, or the pool rejects the block.
    pub fn deallocate(&mut self, addr: usize, size_class: usize) -> (r: ServerResult<()>)
        requires
            old(self).inv(),
        ensures
            final(self).inv(),
            !spec_size_classes().contains(size_class as int) ==> (r matches Err(e) && e
                is Memory) && final(self).pools_model() == old(self).pools_model(),
            spec_size_classes().contains(size_class as int) ==> {
                let idx = spec_class_index(size_class as int);
                let o = old(self).pools_model()[idx];
                &&& (addr < o.capacity() && o.blocks[addr as int] ==> (r matches Ok(u)) && final(self).pools_model()[idx].blocks == o.blocks.update(addr as int, false) && final(self).pools_model()[idx].in_use() == o.in_use() - 1)
                &&& (!(addr < o.capacity() && o.blocks[addr as int]) ==> (r matches Err(e) && e
                    is Memory) && final(self).pools_model()[idx] == o)
                &&& forall|j: int|
                    0 <= j < 10 && j != idx ==> final(self).pools_model()[j] == old(self).pools_model()[j]
            },
    {
        let idx: usize;
        if size_class == 16 {
            idx = 0;
        } else if size_class == 32 {
            idx = 1;
        } else if size_class == 64 {
            idx = 2;
        } else if size_class == 128 {
            idx = 3;
        } else if size_class == 256 {
            idx = 4;
        } else if size_class == 512 {
            idx = 5;
        } else if size_class == 1024 {
            idx = 6;
        } else if size_class == 2048 {
            idx = 7;
        } else if size_class == 4096 {
            idx = 8;
        } else if size_class == 8192 {
            idx = 9;
        } else {
            proof {
                assert(!spec_size_classes().contains(size_class as int));
            }
            return Err(ServerError::Memory("Invalid size class".to_owned()));
        }
        proof {
            assert(spec_size_classes()[spec_class_index(size_class as int)] == size_class as int);
            assert(spec_size_classes().contains(size_class as int));
        }
        let ghost pm0 = self.pools_model();
        let r = self.pools[idx].deallocate(addr);
        proof {
            assert forall|j: int| 0 <= j < 10 && j != spec_class_index(size_class as int)
                implies self.pools_model()[j] == pm0[j] by {
                assert(self.pools@[j] == old(self).pools@[j]);
            }
        }
        r
    }
}

impl MemoryAllocator {
    /// The capacity and in-use count of the pool that serves `size`-byte
    /// requests.
    pub fn pool_usage(&self, size: usize) -> (r: (usize, usize))
        requires
            self.inv(),
        ensures
            r.0 == self.pools_model()[spec_class_index(size as int)].capacity(),
            r.1 == self.pools_model()[spec_class_index(size as int)].in_use(),
    {
        let idx = self.class_index(size);
        let pool = &self.pools[idx];
        (pool.capacity(), pool.in_use())
    }
}

/// Pool balance law, allocation half: one allocation raises the in-use count
/// by exactly one and never shrinks the pool, so any run of allocations
/// followed by as many deallocations returns the in-use count to its
/// starting point while capacity only ever grows.
pub proof fn lemma_pool_alloc_balance(o: PoolModel, n: PoolModel, addr: int)
    requires
        pool_alloc_post(o, n, addr),
    ensures
        n.in_use() == o.in_use() + 1,
        n.capacity() >= o.capacity(),
{
    if !o.full() {
        lemma_count_true_update(o.blocks, addr, true);
    } else {
        let add = if o.capacity() / 2 > 1 {
            o.capacity() / 2
        } else {
            1
        };
        let grown = o.blocks + Seq::new(add as nat, |i: int| false);
        lemma_count_true_append(o.blocks, Seq::new(add as nat, |i: int| false));
        lemma_count_true_all_false(add as nat);
        lemma_count_true_update(grown, addr, true);
    }
}

/// Pool balance law, release half: deallocating an in-use block lowers the
/// in-use count by exactly one and leaves capacity unchanged.
pub proof fn lemma_pool_release_balance(m: PoolModel, addr: int)
    requires
        0 <= addr < m.blocks.len(),
        m.blocks[addr],
    ensures
        count_true(m.blocks.update(addr, false)) == m.in_use() - 1,
        m.blocks.update(addr, false).len() == m.capacity(),
{
    lemma_count_true_update(m.blocks, addr, false);
}

/// Allocator size-class coverage law: for every request size up to the
/// largest class, the selected class can hold the request, is one of the
/// configured classes, and no smaller configured class could hold it.
pub proof fn lemma_size_class_coverage(s: int)
    requires
        0 <= s <= 8192,
    ensures
        spec_find_size_class(s) >= s,
        spec_size_classes().contains(spec_find_size_class(s)),
        forall|c: int| spec_size_classes().contains(c) && c >= s ==> c >= spec_find_size_class(s),
{
    assert(spec_size_classes()[spec_class_index(s)] == spec_find_size_class(s));
    assert forall|c: int| spec_size_classes().contains(c) && c >= s implies c
        >= spec_find_size_class(s) by {
        let k = choose|k: int| 0 <= k < 10 && spec_size_classes()[k] == c;
        assert(spec_size_classes()[k] == c);
    }
}

/// A scoped block of memory: the block's bytes, the size class it was served
/// from, and the index of the block in its pool. A handle is produced by
/// `MemoryManager::allocate` and is valid exactly once: releasing it consumes
/// it.
pub struct MemoryHandle {
    data: Vec<u8>,
    size_class: usize,
    addr: usize,
}

impl MemoryHandle {
    pub closed spec fn spec_size(&self) -> int {
        self.size_class as int
    }

    pub closed spec fn spec_addr(&self) -> int {
        self.addr as int
    }

    pub closed spec fn spec_data(&self) -> Seq<u8> {
        self.data@
    }

    pub open spec fn inv(&self) -> bool {
        self.spec_data().len() == self.spec_size()
    }

    /// The size of this block: the size class it was served from.
    pub fn size(&self) -> (r: usize)
        ensures
            r == self.spec_size(),
    {
        self.size_class
    }

    /// The block's bytes.
    pub fn as_slice(&self) -> (r: &[u8])
        ensures
            r@ == self.spec_data(),
    {
        self.data.as_slice()
    }

    /// The block's bytes, writable.
    pub fn as_slice_mut(&mut self) -> (r: &mut Vec<u8>)
        ensures
            final(self).spec_data() == final(r)@,
            final(self).spec_size() == old(self).spec_size(),
            final(self).spec_addr() == old(self).spec_addr(),
    {
        &mut self.data
    }
}

/// A factory for scoped memory allocations, wrapping an allocator.
pub struct MemoryManager {
    allocator: MemoryAllocator,
}

impl MemoryManager {
    pub closed spec fn spec_allocator(&self) -> &MemoryAllocator {
        &self.allocator
    }

    pub open spec fn inv(&self) -> bool {
        self.spec_allocator().inv()
    }

    pub open spec fn pools_model(&self) -> Seq<PoolModel> {
        self.spec_allocator().pools_model()
    }

    /// Create a manager around a fresh allocator.
    pub fn new() -> (r: MemoryManager)
        ensures
            r.inv(),
            forall|i: int|
                0 <= i < 10 ==> (#[trigger] r.pools_model()[i]).in_use() == 0
                    && r.pools_model()[i].capacity() == 16,
    {
        MemoryManager { allocator: MemoryAllocator::new() }
    }

    /// Allocate `size` bytes: returns a handle holding a zero-filled block
    /// of the selected size class, and raises that pool's in-use count by
    /// one.
    pub fn allocate(&mut self, size: usize) -> (r: ServerResult<MemoryHandle>)
        requires
            old(self).inv(),
            pool_growth_fits(old(self).pools_model()[spec_class_index(size as int)]),
        ensures
            final(self).inv(),
            r matches Ok(h) && {
                let idx = spec_class_index(size as int);
                &&& h.inv()
                &&& h.spec_size() == spec_find_size_class(size as int)
                &&& pool_alloc_post(
                    old(self).pools_model()[idx],
                    final(self).pools_model()[idx],
                    h.spec_addr(),
                )
                &&& final(self).pools_model()[idx].in_use() == old(self).pools_model()[idx].in_use()
                    + 1
                &&& forall|j: int|
                    0 <= j < 10 && j != idx ==> final(self).pools_model()[j] == old(self).pools_model()[j]
            },
    {
        match self.allocator.allocate(size) {
            Ok((addr, size_class)) => {
                proof {
                    lemma_pool_alloc_balance(
                        old(self).pools_model()[spec_class_index(size as int)],
                        self.pools_model()[spec_class_index(size as int)],
                        addr as int,
                    );
                }
                Ok(MemoryHandle { data: vec![0u8; size_class], size_class, addr })
            },
            Err(e) => Err(e),
        }
    }

    /// Create a memory handle for a buffer of the specified size.
    pub fn create_buffer(&mut self, size: usize) -> (r: ServerResult<MemoryHandle>)
        requires
            old(self).inv(),
            pool_growth_fits(old(self).pools_model()[spec_class_index(size as int)]),
        ensures
            final(self).inv(),
            r matches Ok(h) && {
                let idx = spec_class_index(size as int);
                &&& h.inv()
                &&& h.spec_size() == spec_find_size_class(size as int)
                &&& final(self).pools_model()[idx].in_use() == old(self).pools_model()[idx].in_use()
                    + 1
            },
    {
        self.allocate(size)
    }

    /// The capacity and in-use count of the pool that serves `size`-byte
    /// requests.
    pub fn pool_usage(&self, size: usize) -> (r: (usize, usize))
        requires
            self.inv(),
        ensures
            r.0 == self.pools_model()[spec_class_index(size as int)].capacity(),
            r.1 == self.pools_model()[spec_class_index(size as int)].in_use(),
    {
        self.allocator.pool_usage(size)
    }

    /// Release a handle, consuming it: its block returns to the pool it came
    /// from, whose in-use count drops by exactly one. The owner of a handle
    /// calls this when the handle goes out of scope.
    pub fn release(&mut self, handle: MemoryHandle) -> (r: ServerResult<()>)
        requires
            old(self).inv(),
        ensures
            final(self).inv(),
            ({
                let idx = spec_class_index(handle.spec_size());
                let o = old(self).pools_model()[idx];
                &&& (spec_size_classes().contains(handle.spec_size()) && handle.spec_addr()
                    < o.capacity() && o.blocks[handle.spec_addr()] ==> (r matches Ok(u)) && final(self).pools_model()[idx].in_use() == o.in_use() - 1)
                &&& (!spec_size_classes().contains(handle.spec_size()) ==> (r matches Err(e)
                    && e is Memory))
            }),
    {
        let ghost idx = spec_class_index(handle.spec_size());
        let r = self.allocator.deallocate(handle.addr, handle.size_class);
        proof {
            let o = old(self).pools_model()[idx];
            if spec_size_classes().contains(handle.spec_size()) && handle.spec_addr()
                < o.capacity() && o.blocks[handle.spec_addr()] {
                assert(spec_size_classes()[idx] == handle.spec_size());
                lemma_pool_release_balance(o, handle.spec_addr());
            }
        }
        r
    }
}

} // verus!
