//! Bookkeeping of a fixed arena of equally sized blocks, allocated first-fit.
//!
//! The arena itself (the bytes and the lock around this table) belongs to the
//! program that installs the allocator; this module decides which blocks are
//! handed out and which are given back.
use vstd::prelude::*;

verus! {

/// Bytes in each block.
pub const ALLOC_BLOCK_SIZE: usize = 64;

/// Number of blocks in the arena.
pub const ALLOC_BLOCK_NUM: usize = 16384;

/// The `n` blocks starting at `first` lie inside the table and are all free.
pub open spec fn run_is_free(blocks: Seq<bool>, first: int, n: int) -> bool {
    &&& 0 <= first
    &&& first + n <= blocks.len()
    &&& forall|k: int| first <= k < first + n ==> #[trigger] blocks[k]
}

/// `first` is the lowest block at which `n > 0` free blocks follow one another.
pub open spec fn is_first_fit(blocks: Seq<bool>, n: int, first: int) -> bool {
    &&& n > 0
    &&& run_is_free(blocks, first, n)
    &&& forall|t: int| 0 <= t < first ==> !#[trigger] run_is_free(blocks, t, n)
}

/// No run of `n` free blocks exists (or nothing was asked for).
pub open spec fn has_no_fit(blocks: Seq<bool>, n: int) -> bool {
    n == 0 || forall|t: int| !#[trigger] run_is_free(blocks, t, n)
}

/// The table with blocks `first .. first + n` set to `state`.
pub open spec fn marked(blocks: Seq<bool>, first: int, n: int, state: bool) -> Seq<bool> {
    Seq::new(blocks.len(), |k: int| if first <= k < first + n { state } else { blocks[k] })
}

/// Blocks needed to hold `size` bytes: the size divided by the block size, rounded up.
pub open spec fn blocks_needed(size: int) -> int {
    (size + ALLOC_BLOCK_SIZE - 1) / (ALLOC_BLOCK_SIZE as int)
}

/// The blocks reserved for `size` bytes are the fewest that hold them: they hold
/// `size`, and one block fewer would not.
pub proof fn lemma_blocks_needed_is_least(size: int)
    requires
        size >= 0,
    ensures
        blocks_needed(size) >= 0,
        size <= blocks_needed(size) * ALLOC_BLOCK_SIZE,
        blocks_needed(size) * ALLOC_BLOCK_SIZE < size + ALLOC_BLOCK_SIZE,
{
    let n = blocks_needed(size);
    assert(n == (size + 63) / 64);
    assert(size <= n * 64 && n * 64 < size + 64) by (nonlinear_arith)
        requires
            n == (size + 63) / 64,
            size >= 0,
    ;
}

/// The table of a fresh arena: every block is free.
pub open spec fn all_free_table() -> Seq<bool> {
    Seq::new(ALLOC_BLOCK_NUM as nat, |k: int| true)
}

/// Which blocks of the arena are free (`true`) or in use (`false`).
pub struct MyAllocData {
    block_status: [bool; ALLOC_BLOCK_NUM],
}

impl View for MyAllocData {
    type V = Seq<bool>;

    closed spec fn view(&self) -> Seq<bool> {
        self.block_status@
    }
}

impl MyAllocData {
    /// A table in which every block is free.
    pub fn new() -> (data: Self)
        ensures
            data@ == all_free_table(),
    {
        let data = MyAllocData { block_status: [true; ALLOC_BLOCK_NUM] };
        assert(data@ =~= all_free_table());
        data
    }

    /// The table has one entry per block of the arena.
    pub proof fn lemma_covers_arena(&self)
        ensures
            self@.len() == ALLOC_BLOCK_NUM,
    {
    }

    /// Sets blocks `first_block .. first_block + num_blocks` to `state`
    /// (`true`: free, `false`: in use).
    pub fn mark_blocks(&mut self, first_block: usize, num_blocks: usize, state: bool)
        requires
            first_block < ALLOC_BLOCK_NUM,
            num_blocks >= 1,
            first_block + num_blocks <= ALLOC_BLOCK_NUM,
        ensures
            final(self)@ == marked(old(self)@, first_block as int, num_blocks as int, state),
    {
        let end = first_block + num_blocks;
        let mut i = first_block;
        while i < end
            invariant
                first_block <= i <= end,
                end == first_block + num_blocks,
                end <= ALLOC_BLOCK_NUM,
                forall|k: int|
                    0 <= k < ALLOC_BLOCK_NUM ==> #[trigger] self.block_status@[k] == (if first_block
                        <= k < i {
                        state
                    } else {
                        old(self).block_status@[k]
                    }),
            decreases end - i,
        {
            self.block_status[i] = state;
            i = i + 1;
        }
        assert(self@ =~= marked(old(self)@, first_block as int, num_blocks as int, state));
    }
}

impl MyAllocData {
    /// The first block of the lowest run of `num_blocks` free blocks, or `None` when
    /// no such run exists or `num_blocks` is zero.
    pub fn find_blocks(&self, num_blocks: usize) -> (first: Option<usize>)
        requires
            num_blocks <= ALLOC_BLOCK_NUM,
        ensures
            match first {
                Some(s) => is_first_fit(self@, num_blocks as int, s as int),
                None => has_no_fit(self@, num_blocks as int),
            },
    {
        if num_blocks == 0 {
            return None;
        }
        let ghost b = self@;
        let mut count: usize = 0;
        let mut i: usize = 0;
        while i < ALLOC_BLOCK_NUM
            invariant
                b == self@,
                b.len() == ALLOC_BLOCK_NUM,
                1 <= num_blocks <= ALLOC_BLOCK_NUM,
                i <= ALLOC_BLOCK_NUM,
                count <= i,
                count < num_blocks,
                forall|k: int| i - count <= k < i ==> #[trigger] b[k],
                count < i ==> !b[i - count - 1],
                forall|t: int|
                    0 <= t && t + num_blocks <= i ==> !#[trigger] run_is_free(b, t, num_blocks as int),
            decreases ALLOC_BLOCK_NUM - i,
        {
            if self.block_status[i] {
                count = count + 1;
                if count == num_blocks {
                    let s = i + 1 - num_blocks;
                    proof {
                        assert(run_is_free(b, s as int, num_blocks as int));
                    }
                    return Some(s);
                }
                proof {
                    assert forall|t: int|
                        0 <= t && t + num_blocks <= i + 1 implies !#[trigger] run_is_free(
                        b,
                        t,
                        num_blocks as int,
                    ) by {
                        if t + num_blocks == i + 1 {
                            assert(!b[i + 1 - count - 1]);
                        }
                    }
                }
            } else {
                proof {
                    assert forall|t: int|
                        0 <= t && t + num_blocks <= i + 1 implies !#[trigger] run_is_free(
                        b,
                        t,
                        num_blocks as int,
                    ) by {
                        if t + num_blocks == i + 1 {
                            assert(!b[i as int]);
                        }
                    }
                }
                count = 0;
            }
            i = i + 1;
        }
        proof {
            assert forall|t: int| !#[trigger] run_is_free(b, t, num_blocks as int) by {
                if 0 <= t && t + num_blocks <= b.len() {
                }
            }
        }
        None
    }
}

/// Blocks needed to hold `size` bytes.
pub fn blocks_for(size: usize) -> (n: usize)
    ensures
        n == blocks_needed(size as int),
{
    let whole = size / ALLOC_BLOCK_SIZE;
    if size % ALLOC_BLOCK_SIZE == 0 {
        whole
    } else {
        whole + 1
    }
}

impl MyAllocData {
    /// Hands out the lowest run of free blocks that holds `size` bytes, marks it in use
    /// and returns its byte offset from the start of the arena; `None` (and no change)
    /// when no run is large enough or `size` is zero.
    pub fn alloc_blocks(&mut self, size: usize) -> (offset: Option<usize>)
        requires
            blocks_needed(size as int) <= ALLOC_BLOCK_NUM,
        ensures
            match offset {
                Some(off) => {
                    &&& off % ALLOC_BLOCK_SIZE == 0
                    &&& is_first_fit(old(self)@, blocks_needed(size as int), (off / ALLOC_BLOCK_SIZE) as int)
                    &&& final(self)@ == marked(
                        old(self)@,
                        (off / ALLOC_BLOCK_SIZE) as int,
                        blocks_needed(size as int),
                        false,
                    )
                },
                None => {
                    &&& has_no_fit(old(self)@, blocks_needed(size as int))
                    &&& final(self)@ == old(self)@
                },
            },
    {
        let num_blocks = blocks_for(size);
        match self.find_blocks(num_blocks) {
            Some(first) => {
                self.mark_blocks(first, num_blocks, false);
                Some(first * ALLOC_BLOCK_SIZE)
            },
            None => None,
        }
    }

    /// Gives back the blocks that an allocation of `size` bytes at byte offset `offset`
    /// occupies: they are marked free again.
    pub fn dealloc_blocks(&mut self, offset: usize, size: usize)
        requires
            (offset / ALLOC_BLOCK_SIZE) as int + blocks_needed(size as int) <= ALLOC_BLOCK_NUM,
            blocks_needed(size as int) >= 1,
        ensures
            final(self)@ == marked(
                old(self)@,
                (offset / ALLOC_BLOCK_SIZE) as int,
                blocks_needed(size as int),
                true,
            ),
    {
        let first_block = offset / ALLOC_BLOCK_SIZE;
        let num_blocks = blocks_for(size);
        self.mark_blocks(first_block, num_blocks, true);
    }
}

/// Giving back an allocation restores the table it was taken from: when the
/// first fit for `size` bytes sits at byte offset `offset`, marking that run in use and
/// then free again yields the original table, and the release is a valid one.
pub proof fn lemma_dealloc_undoes_alloc(before: Seq<bool>, size: int, offset: int)
    requires
        before.len() == ALLOC_BLOCK_NUM,
        offset % ALLOC_BLOCK_SIZE as int == 0,
        is_first_fit(before, blocks_needed(size), offset / ALLOC_BLOCK_SIZE as int),
    ensures
        ({
            let first = offset / ALLOC_BLOCK_SIZE as int;
            let n = blocks_needed(size);
            &&& n >= 1
            &&& first + n <= ALLOC_BLOCK_NUM
            &&& marked(marked(before, first, n, false), first, n, true) == before
        }),
{
    let first = offset / ALLOC_BLOCK_SIZE as int;
    let n = blocks_needed(size);
    assert(marked(marked(before, first, n, false), first, n, true) =~= before);
}

/// Two allocations taken one after the other never share a block: a run found free
/// after another run was marked in use lies entirely before or entirely after it.
pub proof fn lemma_allocations_disjoint(
    before: Seq<bool>,
    first1: int,
    n1: int,
    first2: int,
    n2: int,
)
    requires
        n1 > 0,
        n2 > 0,
        run_is_free(before, first1, n1),
        run_is_free(marked(before, first1, n1, false), first2, n2),
    ensures
        first2 + n2 <= first1 || first1 + n1 <= first2,
{
    let after = marked(before, first1, n1, false);
    if !(first2 + n2 <= first1 || first1 + n1 <= first2) {
        let k = if first1 <= first2 { first2 } else { first1 };
        assert(after[k] == false);
        assert(after[k]);
    }
}

proof fn lemma_size_within_blocks(size: int)
    requires
        size >= 0,
    ensures
        size <= blocks_needed(size) * ALLOC_BLOCK_SIZE,
        blocks_needed(size) >= 0,
{
    assert(size <= ((size + 63) / 64) * 64) by (nonlinear_arith)
        requires
            size >= 0,
    ;
}

/// Two allocations taken one after the other occupy disjoint byte ranges of the arena:
/// when `offset1` is where `alloc_blocks(size1)` placed the first and `offset2` where
/// the next `alloc_blocks(size2)` placed the second, the bytes
/// `offset1 .. offset1 + size1` and `offset2 .. offset2 + size2` do not meet, and both
/// lie inside the arena's `ALLOC_BLOCK_NUM * ALLOC_BLOCK_SIZE` bytes.
pub proof fn lemma_allocations_disjoint_bytes(
    before: Seq<bool>,
    offset1: int,
    size1: int,
    offset2: int,
    size2: int,
)
    requires
        before.len() == ALLOC_BLOCK_NUM,
        size1 >= 0,
        size2 >= 0,
        offset1 % ALLOC_BLOCK_SIZE as int == 0,
        offset2 % ALLOC_BLOCK_SIZE as int == 0,
        is_first_fit(before, blocks_needed(size1), offset1 / ALLOC_BLOCK_SIZE as int),
        is_first_fit(
            marked(before, offset1 / ALLOC_BLOCK_SIZE as int, blocks_needed(size1), false),
            blocks_needed(size2),
            offset2 / ALLOC_BLOCK_SIZE as int,
        ),
    ensures
        offset2 + size2 <= offset1 || offset1 + size1 <= offset2,
        0 <= offset1 && offset1 + size1 <= ALLOC_BLOCK_NUM * ALLOC_BLOCK_SIZE,
        0 <= offset2 && offset2 + size2 <= ALLOC_BLOCK_NUM * ALLOC_BLOCK_SIZE,
{
    let s1 = offset1 / 64;
    let s2 = offset2 / 64;
    let n1 = blocks_needed(size1);
    let n2 = blocks_needed(size2);
    lemma_size_within_blocks(size1);
    lemma_size_within_blocks(size2);
    lemma_allocations_disjoint(before, s1, n1, s2, n2);
    assert(offset1 == s1 * 64);
    assert(offset2 == s2 * 64);
    assert(marked(before, s1, n1, false).len() == ALLOC_BLOCK_NUM);
    assert(s1 + n1 <= ALLOC_BLOCK_NUM);
    assert(s2 + n2 <= ALLOC_BLOCK_NUM);
    assert(offset1 + size1 <= (s1 + n1) * 64) by (nonlinear_arith)
        requires
            offset1 == s1 * 64,
            size1 <= n1 * 64,
    ;
    assert(offset2 + size2 <= (s2 + n2) * 64) by (nonlinear_arith)
        requires
            offset2 == s2 * 64,
            size2 <= n2 * 64,
    ;
    assert((s1 + n1) * 64 <= ALLOC_BLOCK_NUM * 64) by (nonlinear_arith)
        requires
            s1 + n1 <= ALLOC_BLOCK_NUM,
    ;
    assert((s2 + n2) * 64 <= ALLOC_BLOCK_NUM * 64) by (nonlinear_arith)
        requires
            s2 + n2 <= ALLOC_BLOCK_NUM,
    ;
    if s2 + n2 <= s1 {
        assert((s2 + n2) * 64 <= s1 * 64) by (nonlinear_arith)
            requires
                s2 + n2 <= s1,
        ;
    } else {
        assert((s1 + n1) * 64 <= s2 * 64) by (nonlinear_arith)
            requires
                s1 + n1 <= s2,
        ;
    }
    assert(s1 >= 0 && s2 >= 0);
    assert(offset1 >= 0) by (nonlinear_arith)
        requires
            offset1 == s1 * 64,
            s1 >= 0,
    ;
    assert(offset2 >= 0) by (nonlinear_arith)
        requires
            offset2 == s2 * 64,
            s2 >= 0,
    ;
}

/// In an arena where every block is free, any request of `1 ..= ALLOC_BLOCK_NUM`
/// blocks is served from the first block.
pub proof fn lemma_fresh_arena_first_fit(n: int)
    requires
        1 <= n <= ALLOC_BLOCK_NUM,
    ensures
        is_first_fit(all_free_table(), n, 0),
{
}

} // verus!
