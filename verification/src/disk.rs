//! The disk manager: a flat heap of 4096-byte pages addressed by page id.
//!
//! The heap image is the byte content of the backing file, page `id` at byte
//! offset `id * PAGE_SIZE`. The manager owns the image, hands out page ids in
//! increasing order and copies whole pages in and out of it. Its mathematical
//! model is the sequence of its pages.

use vstd::prelude::*;

verus! {

/// The size of one page in bytes.
pub const PAGE_SIZE: usize = 4096;

/// The zero-based position of a page in the heap.
pub type PageId = u64;

/// Why an operation on the store was refused.
#[derive(Debug, Clone, Copy, PartialEq, Eq, Structural)]
pub enum DiskError {
    /// The backing storage failed underneath the manager.
    Io,
    /// The page id lies at or beyond the allocation frontier.
    InvalidPageId,
    /// The heap's length is not a whole number of pages.
    CorruptStore,
}

/// A page in which every byte is zero.
pub open spec fn zero_page() -> Seq<u8> {
    Seq::new(PAGE_SIZE as nat, |i: int| 0u8)
}

/// The bytes of page `id` within a flat heap.
pub open spec fn page_of(heap: Seq<u8>, id: int) -> Seq<u8> {
    heap.subrange(id * (PAGE_SIZE as int), (id + 1) * (PAGE_SIZE as int))
}

/// A flat heap cut into its whole pages, in order.
pub open spec fn paginate(heap: Seq<u8>) -> Seq<Seq<u8>> {
    Seq::new(heap.len() / (PAGE_SIZE as nat), |id: int| page_of(heap, id))
}

/// A flat heap in which the bytes of page `id` are replaced by `data`.
pub open spec fn heap_with_page(heap: Seq<u8>, id: int, data: Seq<u8>) -> Seq<u8> {
    heap.subrange(0, id * (PAGE_SIZE as int)) + data + heap.subrange(
        (id + 1) * (PAGE_SIZE as int),
        heap.len() as int,
    )
}

/// The largest number of pages that one heap image can hold: an allocation
/// of this machine has at most `isize::MAX` bytes.
pub open spec fn max_pages() -> int {
    isize::MAX as int / (PAGE_SIZE as int)
}

/// The disk manager: the heap image and the allocation frontier.
pub struct DiskManager {
    heap_file: Vec<u8>,
    next_page_id: u64,
}

impl View for DiskManager {
    type V = Seq<Seq<u8>>;

    /// The allocated pages, in id order.
    open spec fn view(&self) -> Seq<Seq<u8>> {
        paginate(self.heap())
    }
}

impl DiskManager {
    /// The flat byte content of the heap.
    pub closed spec fn heap(&self) -> Seq<u8> {
        self.heap_file@
    }

    /// The allocation frontier: the id the next allocation returns.
    pub closed spec fn frontier(&self) -> int {
        self.next_page_id as int
    }

    /// The heap holds exactly the pages below the frontier.
    pub open spec fn wf(&self) -> bool {
        &&& self.heap().len() == self.frontier() * (PAGE_SIZE as int)
        &&& self.heap().len() <= usize::MAX
    }

    /// Takes over a heap image. The frontier is the number of pages it holds;
    /// an image with a partial trailing page is refused.
    pub fn new(heap_file: Vec<u8>) -> (r: Result<DiskManager, DiskError>)
        ensures
            heap_file@.len() % (PAGE_SIZE as nat) != 0 ==> r == Err::<DiskManager, DiskError>(
                DiskError::CorruptStore,
            ),
            heap_file@.len() % (PAGE_SIZE as nat) == 0 ==> r is Ok && r->Ok_0.wf()
                && r->Ok_0.heap() == heap_file@ && r->Ok_0.frontier() == heap_file@.len()
                / (PAGE_SIZE as nat),
    {
        let heap_file_size: usize = heap_file.len();
        if heap_file_size % PAGE_SIZE != 0 {
            return Err(DiskError::CorruptStore);
        }
        let next_page_id: u64 = (heap_file_size / PAGE_SIZE) as u64;
        Ok(DiskManager { heap_file, next_page_id })
    }

    /// The allocation frontier.
    pub fn next_page_id(&self) -> (id: PageId)
        ensures
            id == self.frontier(),
    {
        self.next_page_id
    }

    /// Whether one more page fits in the addressable heap.
    pub fn can_allocate(&self) -> (b: bool)
        requires
            self.wf(),
        ensures
            b == (self.frontier() < max_pages()),
    {
        self.heap_file.len() <= (isize::MAX as usize) - PAGE_SIZE
    }

    /// Hands out the page at the frontier, zero-filled, and moves the
    /// frontier one page on.
    pub fn allocate_page(&mut self) -> (id: PageId)
        requires
            old(self).wf(),
            old(self).frontier() < max_pages(),
        ensures
            final(self).wf(),
            id == old(self).frontier(),
            final(self).frontier() == old(self).frontier() + 1,
            final(self).heap() == old(self).heap() + zero_page(),
            final(self)@ == old(self)@.push(zero_page()),
            allocates(*old(self), *final(self), id),
    {
        let id: u64 = self.next_page_id;
        let grown: usize = self.heap_file.len() + PAGE_SIZE;
        self.heap_file.resize(grown, 0u8);
        self.next_page_id = id + 1;
        proof {
            assert(self.heap_file@ =~= old(self).heap_file@ + zero_page());
            lemma_paginate_push(old(self).heap_file@, zero_page());
        }
        id
    }

    /// Copies page `page_id` into `data`. An id at or beyond the frontier is
    /// refused and `data` is left as it was.
    pub fn read_page_data(&self, page_id: PageId, data: &mut [u8]) -> (r: Result<(), DiskError>)
        requires
            self.wf(),
            old(data)@.len() == PAGE_SIZE,
        ensures
            page_id >= self.frontier() ==> r == Err::<(), DiskError>(DiskError::InvalidPageId)
                && final(data)@ == old(data)@,
            page_id < self.frontier() ==> r == Ok::<(), DiskError>(()) && final(data)@
                == self@[page_id as int],
    {
        if page_id >= self.next_page_id {
            return Err(DiskError::InvalidPageId);
        }
        let offset: usize = (page_id as usize) * PAGE_SIZE;
        let mut i: usize = 0;
        while i < PAGE_SIZE
            invariant
                self.wf(),
                page_id < self.frontier(),
                offset == page_id * PAGE_SIZE,
                i <= PAGE_SIZE,
                data@.len() == PAGE_SIZE,
                forall|k: int| 0 <= k < i ==> data@[k] == self.heap_file@[offset + k],
            decreases PAGE_SIZE - i,
        {
            data[i] = self.heap_file[offset + i];
            i += 1;
        }
        assert(data@ =~= page_of(self.heap_file@, page_id as int));
        Ok(())
    }

    /// Replaces page `page_id` by `data`. An id at or beyond the frontier is
    /// refused and the store is left as it was.
    pub fn write_page_data(&mut self, page_id: PageId, data: &[u8]) -> (r: Result<(), DiskError>)
        requires
            old(self).wf(),
            data@.len() == PAGE_SIZE,
        ensures
            final(self).wf(),
            final(self).frontier() == old(self).frontier(),
            page_id >= old(self).frontier() ==> r == Err::<(), DiskError>(
                DiskError::InvalidPageId,
            ) && final(self).heap() == old(self).heap(),
            page_id < old(self).frontier() ==> r == Ok::<(), DiskError>(()) && final(self)@
                == old(self)@.update(page_id as int, data@) && final(self).heap() == heap_with_page(
                old(self).heap(),
                page_id as int,
                data@,
            ),
    {
        if page_id >= self.next_page_id {
            return Err(DiskError::InvalidPageId);
        }
        let offset: usize = (page_id as usize) * PAGE_SIZE;
        let mut i: usize = 0;
        while i < PAGE_SIZE
            invariant
                old(self).wf(),
                page_id < old(self).frontier(),
                self.next_page_id == old(self).next_page_id,
                offset == page_id * PAGE_SIZE,
                i <= PAGE_SIZE,
                data@.len() == PAGE_SIZE,
                self.heap_file@.len() == old(self).heap_file@.len(),
                forall|k: int|
                    0 <= k < self.heap_file@.len() ==> #[trigger] self.heap_file@[k] == (if offset
                        <= k < offset + i {
                        data@[k - offset]
                    } else {
                        old(self).heap_file@[k]
                    }),
            decreases PAGE_SIZE - i,
        {
            self.heap_file[offset + i] = data[i];
            i += 1;
        }
        proof {
            lemma_paginate_update(old(self).heap_file@, self.heap_file@, page_id as int, data@);
            assert(self.heap_file@ =~= heap_with_page(old(self).heap_file@, page_id as int, data@));
        }
        Ok(())
    }

    /// The byte offset of page `page_id` in the heap. An id at or beyond the
    /// frontier has none.
    pub fn page_offset(&self, page_id: PageId) -> (r: Result<u64, DiskError>)
        requires
            self.wf(),
        ensures
            page_id >= self.frontier() ==> r == Err::<u64, DiskError>(DiskError::InvalidPageId),
            page_id < self.frontier() ==> r == Ok::<u64, DiskError>(
                (page_id * PAGE_SIZE) as u64,
            ) && page_id * PAGE_SIZE + PAGE_SIZE <= self.heap().len(),
    {
        if page_id >= self.next_page_id {
            return Err(DiskError::InvalidPageId);
        }
        Ok(page_id * (PAGE_SIZE as u64))
    }

    /// The heap image as it stands.
    pub fn heap_file(&self) -> (heap_file: &Vec<u8>)
        ensures
            heap_file@ == self.heap(),
    {
        &self.heap_file
    }

    /// Gives the heap image back, for storing it away.
    pub fn into_heap_file(self) -> (heap_file: Vec<u8>)
        ensures
            heap_file@ == self.heap(),
    {
        self.heap_file
    }
}

/// A heap of whole pages with one more page behind it is the old pages and
/// then the new one.
pub proof fn lemma_paginate_push(heap: Seq<u8>, page: Seq<u8>)
    requires
        heap.len() % (PAGE_SIZE as nat) == 0,
        page.len() == PAGE_SIZE,
    ensures
        paginate(heap + page) =~= paginate(heap).push(page),
{
    let n = heap.len() / (PAGE_SIZE as nat);
    assert(heap.len() == n * 4096);
    assert((heap + page).len() / 4096 == n + 1);
    assert forall|id: int| 0 <= id < n + 1 implies #[trigger] paginate(heap + page)[id]
        =~= paginate(heap).push(page)[id] by {
        if id < n {
            assert(page_of(heap + page, id) =~= page_of(heap, id));
        } else {
            assert(page_of(heap + page, id) =~= page);
        }
    }
}

/// Overwriting the bytes of one page changes that page and no other.
pub proof fn lemma_paginate_update(before: Seq<u8>, after: Seq<u8>, id: int, data: Seq<u8>)
    requires
        data.len() == PAGE_SIZE,
        0 <= id < before.len() / (PAGE_SIZE as nat),
        after.len() == before.len(),
        forall|k: int|
            0 <= k < after.len() ==> #[trigger] after[k] == (if id * 4096 <= k < id * 4096 + 4096 {
                data[k - id * 4096]
            } else {
                before[k]
            }),
    ensures
        paginate(after) =~= paginate(before).update(id, data),
{
    let n = before.len() / (PAGE_SIZE as nat);
    assert forall|j: int| 0 <= j < n implies #[trigger] paginate(after)[j] =~= paginate(
        before,
    ).update(id, data)[j] by {
        if j == id {
            assert(page_of(after, j) =~= data);
        } else {
            assert(page_of(after, j) =~= page_of(before, j));
        }
    }
}

/// What one allocation does: `before` is the store the call found, `after`
/// the store it left, `id` the id it returned.
pub open spec fn allocates(before: DiskManager, after: DiskManager, id: PageId) -> bool {
    &&& before.wf()
    &&& after.wf()
    &&& id == before.frontier()
    &&& after.frontier() == before.frontier() + 1
    &&& after@ == before@.push(zero_page())
}

/// A run of allocations: each state follows from the one before it by one
/// allocation, which returned the id at the same position.
pub open spec fn allocation_run(states: Seq<DiskManager>, ids: Seq<PageId>) -> bool {
    &&& states.len() == ids.len() + 1
    &&& forall|k: int| 0 <= k < ids.len() ==> allocates(#[trigger] states[k], states[k + 1], ids[k])
}

/// A well-formed store has as many pages as its frontier says, each a whole
/// page.
pub proof fn lemma_pages_below_frontier(store: DiskManager)
    requires
        store.wf(),
    ensures
        store@.len() == store.frontier(),
        forall|id: int| 0 <= id < store.frontier() ==> (#[trigger] store@[id]).len() == PAGE_SIZE,
{
}

/// Allocation is monotonic: in any run of allocations the k-th id returned is
/// the starting frontier plus k, so the ids start at the frontier and strictly
/// increase.
pub proof fn law_allocation_monotonic(states: Seq<DiskManager>, ids: Seq<PageId>)
    requires
        allocation_run(states, ids),
    ensures
        forall|k: int| 0 <= k < ids.len() ==> #[trigger] ids[k] == states[0].frontier() + k,
        forall|j: int, k: int| 0 <= j < k < ids.len() ==> ids[j] < ids[k],
        states.last().frontier() == states[0].frontier() + ids.len(),
    decreases ids.len(),
{
    if ids.len() > 0 {
        let n = ids.len() - 1;
        assert forall|k: int| 0 <= k < n implies allocates(
            #[trigger] states.take(n + 1)[k],
            states.take(n + 1)[k + 1],
            ids.take(n)[k],
        ) by {
            assert(allocates(states[k], states[k + 1], ids[k]));
        }
        law_allocation_monotonic(states.take(n + 1), ids.take(n));
        assert(allocates(states[n], states[n + 1], ids[n]));
        assert(states.take(n + 1).last() == states[n]);
        assert forall|k: int| 0 <= k < ids.len() implies #[trigger] ids[k] == states[0].frontier()
            + k by {
            if k < n {
                assert(ids.take(n)[k] == ids[k]);
            }
        }
    }
}

/// One call that does not write page `id`: it changes nothing (a read, a
/// refused call), allocates a page, or writes another page.
pub open spec fn leaves_page(before: Seq<Seq<u8>>, after: Seq<Seq<u8>>, id: int) -> bool {
    ||| after == before
    ||| after == before.push(zero_page())
    ||| exists|other: int, data: Seq<u8>|
        0 <= other < before.len() && other != id && after == before.update(other, data)
}

/// A run of calls none of which writes page `id`: each state follows from
/// the one before it by one such call.
pub open spec fn run_leaves_page(states: Seq<DiskManager>, id: PageId) -> bool {
    &&& states.len() >= 1
    &&& forall|k: int|
        0 <= k < states.len() - 1 ==> leaves_page((#[trigger] states[k])@, states[k + 1]@, id as int)
}

/// A page keeps its bytes until it is written: over any run of reads,
/// allocations and writes to other pages, page `id` stays allocated and reads
/// the same.
pub proof fn law_page_kept_until_written(states: Seq<DiskManager>, id: PageId)
    requires
        run_leaves_page(states, id),
        id < states[0]@.len(),
    ensures
        id < states.last()@.len(),
        states.last()@[id as int] == states[0]@[id as int],
    decreases states.len(),
{
    if states.len() > 1 {
        let n = states.len() - 1;
        let head = states.take(n);
        assert forall|k: int| 0 <= k < head.len() - 1 implies leaves_page(
            (#[trigger] head[k])@,
            head[k + 1]@,
            id as int,
        ) by {
            assert(leaves_page(states[k]@, states[k + 1]@, id as int));
        }
        law_page_kept_until_written(head, id);
        assert(head.last() == states[n - 1]);
        assert(leaves_page(states[n - 1]@, states[n]@, id as int));
    }
}

/// A fresh page reads as zeros: the page an allocation hands out is all zero
/// bytes, and stays so over any run of calls that does not write it.
pub proof fn law_fresh_page_is_zero(before: DiskManager, id: PageId, states: Seq<DiskManager>)
    requires
        states.len() >= 1,
        allocates(before, states[0], id),
        run_leaves_page(states, id),
    ensures
        states.last()@[id as int] == zero_page(),
        forall|i: int| 0 <= i < PAGE_SIZE ==> (#[trigger] states.last()@[id as int][i]) == 0u8,
{
    lemma_pages_below_frontier(before);
    law_page_kept_until_written(states, id);
}

/// Round trip: after page `id` was written with `data` it reads as `data`,
/// and stays so over any run of calls that does not write it again. The
/// write changes no other page.
pub proof fn law_write_then_read(
    before: DiskManager,
    id: PageId,
    data: Seq<u8>,
    states: Seq<DiskManager>,
)
    requires
        before.wf(),
        id < before.frontier(),
        states.len() >= 1,
        states[0]@ == before@.update(id as int, data),
        run_leaves_page(states, id),
    ensures
        states.last()@[id as int] == data,
        forall|j: int| 0 <= j < before.frontier() && j != id ==> states[0]@[j] == before@[j],
{
    lemma_pages_below_frontier(before);
    law_page_kept_until_written(states, id);
}

/// Reopening is faithful: a heap image given back by a well-formed store is
/// a whole number of pages, and any well-formed store over the same image has
/// the same pages and the same frontier, the image's length in pages.
pub proof fn law_reopen_keeps_pages(closed: DiskManager, reopened: DiskManager)
    requires
        closed.wf(),
        reopened.wf(),
        reopened.heap() == closed.heap(),
    ensures
        closed.heap().len() % (PAGE_SIZE as nat) == 0,
        reopened@ == closed@,
        reopened.frontier() == closed.frontier(),
        reopened.frontier() == closed.heap().len() / (PAGE_SIZE as nat),
{
}

/// A length with a partial trailing page is never a whole number of pages.
pub proof fn law_partial_page_is_corrupt(k: nat, r: nat)
    requires
        0 < r < PAGE_SIZE,
    ensures
        (PAGE_SIZE * k + r) % (PAGE_SIZE as int) != 0,
{
}

} // verus!
