use vstd::prelude::*;

verus! {

/// Bytes at the start of every block of pages that the block's own record
/// (its page count and the link to the previous block) occupies.
pub const PAGE_HEADER_SIZE: usize = 16;

/// The allocator could not obtain memory.
#[derive(Debug, Clone, Copy, PartialEq, Eq, Structural)]
pub enum AllocError {
    OutOfMemory,
}

/// A place in the allocator's memory: a block of pages, by its index in
/// allocation order, and a byte offset inside it.
#[derive(Debug, Clone, Copy, PartialEq, Eq, Structural)]
pub struct Pointer {
    pub block: usize,
    pub offset: usize,
}

/// A region handed out: where it starts and how many bytes it spans.
pub struct Region {
    pub block: int,
    pub offset: int,
    pub len: int,
}

/// A page allocator for use where the process heap cannot be trusted. It
/// obtains whole pages in blocks, hands out consecutive pieces of the last
/// page that still has room, and never frees a piece: the blocks go back
/// together when the allocator is torn down.
pub struct PageAllocator {
    page_size: usize,
    blocks: Vec<usize>,
    current: Option<Pointer>,
    total_allocated_pages: usize,
    regions: Ghost<Seq<Region>>,
}

impl PageAllocator {
    /// The page count of each block, in the order they were obtained.
    pub closed spec fn block_pages(&self) -> Seq<usize> {
        self.blocks@
    }

    /// The page size the allocator works with.
    pub closed spec fn spec_page_size(&self) -> int {
        self.page_size as int
    }

    /// Every region handed out so far, in order.
    pub closed spec fn handed_out(&self) -> Seq<Region> {
        self.regions@
    }

    /// The bytes block `b` spans.
    pub open spec fn block_len(&self, b: int) -> int {
        self.block_pages()[b] * self.spec_page_size()
    }

    /// Holds when `p` lies inside one of the allocator's blocks.
    pub open spec fn owns(&self, p: Pointer) -> bool {
        p.block < self.block_pages().len() && p.offset < self.block_len(p.block as int)
    }

    /// Holds when region `r` lies inside its block, after the block's record.
    pub open spec fn region_in_blocks(&self, r: Region) -> bool {
        0 <= r.block < self.block_pages().len() && PAGE_HEADER_SIZE <= r.offset && 0 <= r.len
            && r.offset + r.len <= self.block_len(r.block)
    }

    /// Holds when two regions share no byte.
    pub open spec fn disjoint(a: Region, b: Region) -> bool {
        a.block != b.block || a.offset + a.len <= b.offset || b.offset + b.len <= a.offset
    }

    /// The allocator's invariant.
    pub closed spec fn wf(&self) -> bool {
        &&& self.page_size > PAGE_HEADER_SIZE
        &&& self.blocks@.len() <= usize::MAX
        &&& forall|b: int| 0 <= b < self.blocks@.len() ==> self.blocks@[b] >= 1
        &&& forall|b: int| 0 <= b < self.blocks@.len() ==> #[trigger] self.block_len(b) <= usize::MAX
        &&& self.total_allocated_pages == sum_pages(self.blocks@)
        &&& forall|i: int| 0 <= i < self.regions@.len() ==> self.region_in_blocks(#[trigger] self.regions@[i])
        &&& forall|i: int, j: int| 0 <= i < j < self.regions@.len() && (#[trigger] self.regions@[i]).block == (#[trigger] self.regions@[j]).block
            ==> self.regions@[i].offset + self.regions@[i].len <= self.regions@[j].offset
        &&& match self.current {
            Some(c) => {
                &&& c.block < self.blocks@.len()
                &&& PAGE_HEADER_SIZE <= c.offset < self.block_len(c.block as int)
                &&& forall|i: int| 0 <= i < self.regions@.len() && (#[trigger] self.regions@[i]).block == c.block
                    ==> self.regions@[i].offset + self.regions@[i].len <= c.offset
            },
            None => true,
        }
        &&& forall|i: int| 0 <= i < self.regions@.len() ==> (#[trigger] self.regions@[i]).block < self.blocks@.len()
    }

    /// A fresh allocator that has obtained no pages, working with pages of
    /// `page_size` bytes.
    pub fn new(page_size: usize) -> (r: Self)
        requires
            page_size > PAGE_HEADER_SIZE,
        ensures
            r.wf(),
            r.block_pages() == Seq::<usize>::empty(),
            r.handed_out() == Seq::<Region>::empty(),
            r.spec_page_size() == page_size,
    {
        PageAllocator {
            page_size,
            blocks: Vec::new(),
            current: None,
            total_allocated_pages: 0,
            regions: Ghost(Seq::empty()),
        }
    }

    /// The number of pages obtained so far.
    pub fn pages_allocated(&self) -> (r: usize)
        requires
            self.wf(),
        ensures
            r == sum_pages(self.block_pages()),
    {
        self.total_allocated_pages
    }

    /// The page size the allocator works with.
    pub fn page_size(&self) -> (r: usize)
        ensures
            r == self.spec_page_size(),
    {
        self.page_size
    }

    /// The number of blocks obtained so far.
    pub fn block_count(&self) -> (r: usize)
        ensures
            r == self.block_pages().len(),
    {
        self.blocks.len()
    }

    /// The number of pages in block `b`.
    pub fn pages_in_block(&self, b: usize) -> (r: usize)
        requires
            b < self.block_pages().len(),
        ensures
            r == self.block_pages()[b as int],
    {
        self.blocks[b]
    }

    /// Holds when a request of `size` bytes fits in what is left of the
    /// current page.
    pub open spec fn fits_current(&self, size: int) -> bool {
        self.has_current() && self.current_room() >= size
    }

    /// Holds when a page with room left is at hand.
    pub closed spec fn has_current(&self) -> bool {
        self.current is Some
    }

    /// Where the free rest of the current page starts, if there is one.
    pub closed spec fn spec_current(&self) -> Option<Pointer> {
        self.current
    }

    /// The bytes left in the current page.
    pub closed spec fn current_room(&self) -> int {
        match self.current {
            Some(c) => self.block_len(c.block as int) - c.offset,
            None => 0,
        }
    }

    /// The whole pages a request of `size` bytes needs when it starts a new
    /// block: enough for the block's record and the request.
    pub open spec fn pages_for(&self, size: int) -> int {
        (size + PAGE_HEADER_SIZE + self.spec_page_size() - 1) / self.spec_page_size()
    }

    /// How many pages must be obtained from the kernel to serve a request of
    /// `size` bytes: zero when it fits in the current page, `None` when the
    /// count does not fit in a machine word.
    pub fn pages_needed(&self, size: usize) -> (r: Option<usize>)
        requires
            self.wf(),
        ensures
            self.fits_current(size as int) ==> r == Some(0usize),
            !self.fits_current(size as int) ==> (match r {
                Some(n) => n == self.pages_for(size as int) && n * self.spec_page_size() <= usize::MAX,
                None => self.pages_for(size as int) * self.spec_page_size() > usize::MAX,
            }),
    {
        if let Some(c) = self.current {
            if self.blocks[c.block] * self.page_size - c.offset >= size {
                return Some(0);
            }
        }
        self.new_block_pages(size)
    }

    fn new_block_pages(&self, size: usize) -> (r: Option<usize>)
        requires
            self.wf(),
        ensures
            match r {
                Some(n) => n == self.pages_for(size as int) && n * self.spec_page_size() <= usize::MAX,
                None => self.pages_for(size as int) * self.spec_page_size() > usize::MAX,
            },
    {
        let ps = self.page_size as u128;
        let n = (size as u128 + PAGE_HEADER_SIZE as u128 + ps - 1) / ps;
        proof {
            assert(n * ps <= size + PAGE_HEADER_SIZE + ps - 1) by (nonlinear_arith)
                requires n == (size + PAGE_HEADER_SIZE + ps - 1) / (ps as int), ps > 0;
        }
        if n * ps > usize::MAX as u128 {
            return None;
        }
        proof {
            assert(n <= n * ps) by (nonlinear_arith)
                requires ps >= 1, n >= 0;
        }
        Some(n as usize)
    }

    /// Serves a request of `size` bytes: from the rest of the current page
    /// when it fits there, otherwise from a new block of `pages_for(size)`
    /// pages, whose tail becomes the current page when the request leaves
    /// room in it. The region handed out is disjoint from every earlier one.
    pub fn alloc_raw(&mut self, size: usize) -> (r: Result<Pointer, AllocError>)
        requires
            old(self).wf(),
        ensures
            final(self).wf(),
            final(self).spec_page_size() == old(self).spec_page_size(),
            match r {
                Ok(p) => {
                    let reg = Region { block: p.block as int, offset: p.offset as int, len: size as int };
                    &&& final(self).handed_out() == old(self).handed_out().push(reg)
                    &&& final(self).region_in_blocks(reg)
                    &&& if old(self).fits_current(size as int) {
                        &&& final(self).block_pages() == old(self).block_pages()
                        &&& p == old(self).spec_current().unwrap()
                        &&& final(self).spec_current() == (if p.offset + size == old(self).block_len(p.block as int) {
                            None
                        } else {
                            Some(Pointer { block: p.block, offset: (p.offset + size) as usize })
                        })
                    } else {
                        &&& final(self).spec_current() == (if (PAGE_HEADER_SIZE + size) % old(self).spec_page_size() != 0 {
                            Some(Pointer { block: p.block, offset: (PAGE_HEADER_SIZE + size) as usize })
                        } else {
                            None
                        })
                        &&& final(self).block_pages() == old(self).block_pages().push(
                            old(self).pages_for(size as int) as usize,
                        )
                        &&& p.block == old(self).block_pages().len()
                        &&& p.offset == PAGE_HEADER_SIZE
                        &&& old(self).pages_for(size as int) * old(self).spec_page_size() <= usize::MAX
                        &&& sum_pages(old(self).block_pages()) + old(self).pages_for(size as int) <= usize::MAX
                    }
                },
                Err(_) => {
                    &&& !old(self).fits_current(size as int)
                    &&& old(self).pages_for(size as int) * old(self).spec_page_size() > usize::MAX
                        || sum_pages(old(self).block_pages()) + old(self).pages_for(size as int) > usize::MAX
                    &&& *final(self) == *old(self)
                },
            },
    {
        let ghost old_regions = self.regions@;
        if let Some(c) = self.current {
            let end = self.blocks[c.block] * self.page_size;
            if end - c.offset >= size {
                let p = c;
                let next = c.offset + size;
                if next == end {
                    self.current = None;
                } else {
                    self.current = Some(Pointer { block: c.block, offset: next });
                }
                let ghost reg = Region { block: p.block as int, offset: p.offset as int, len: size as int };
                self.regions = Ghost(old_regions.push(reg));
                proof {
                    let rs = self.regions@;
                    assert(rs[old_regions.len() as int] == reg);
                    assert forall|bb: int| 0 <= bb < self.blocks@.len() implies #[trigger] self.block_len(bb) <= usize::MAX by {
                        assert(self.block_len(bb) == old(self).block_len(bb));
                    }
                    assert forall|i: int| 0 <= i < old_regions.len() implies #[trigger] rs[i] == old_regions[i] by {}
                    assert forall|i: int, j: int| 0 <= i < j < rs.len() && (#[trigger] rs[i]).block == (#[trigger] rs[j]).block
                        implies rs[i].offset + rs[i].len <= rs[j].offset by {
                        if j == old_regions.len() {
                            assert(rs[i] == old_regions[i]);
                        } else {
                            assert(rs[i] == old_regions[i]);
                            assert(rs[j] == old_regions[j]);
                        }
                    }
                    match self.current {
                        Some(cc) => {
                            assert forall|i: int| 0 <= i < rs.len() && (#[trigger] rs[i]).block == cc.block
                                implies rs[i].offset + rs[i].len <= cc.offset by {
                                if i < old_regions.len() {
                                    assert(rs[i] == old_regions[i]);
                                }
                            }
                        },
                        None => {},
                    }
                    assert forall|i: int| 0 <= i < rs.len() implies (#[trigger] rs[i]).block < self.blocks@.len() by {
                        if i < old_regions.len() {
                            assert(rs[i] == old_regions[i]);
                        }
                    }
                    assert forall|i: int| 0 <= i < self.regions@.len() implies self.region_in_blocks(#[trigger] self.regions@[i]) by {
                        if i < old_regions.len() {
                            assert(self.regions@[i] == old_regions[i]);
                        }
                    }
                }
                return Ok(p);
            }
        }
        let n = match self.new_block_pages(size) {
            Some(n) => n,
            None => return Err(AllocError::OutOfMemory),
        };
        if n > usize::MAX - self.total_allocated_pages {
            return Err(AllocError::OutOfMemory);
        }
        let ghost old_blocks = self.blocks@;
        let ps = self.page_size;
        proof {
            assert(n >= 1) by (nonlinear_arith)
                requires n == (size + PAGE_HEADER_SIZE + ps - 1) / (ps as int), ps > 0;
            assert(n * ps >= size + PAGE_HEADER_SIZE) by (nonlinear_arith)
                requires n == (size + PAGE_HEADER_SIZE + ps - 1) / (ps as int), ps > 0;
        }
        self.blocks.push(n);
        self.total_allocated_pages = self.total_allocated_pages + n;
        proof {
            lemma_sum_pages_push(old_blocks, n);
        }
        let b = self.blocks.len() - 1;
        let used = PAGE_HEADER_SIZE + size;
        if used % ps != 0 {
            proof {
                assert(used < n * ps) by (nonlinear_arith)
                    requires n * ps >= used, used % ps != 0, ps > 0;
            }
            self.current = Some(Pointer { block: b, offset: used });
        } else {
            self.current = None;
        }
        let p = Pointer { block: b, offset: PAGE_HEADER_SIZE };
        let ghost reg = Region { block: b as int, offset: PAGE_HEADER_SIZE as int, len: size as int };
        self.regions = Ghost(old_regions.push(reg));
        proof {
            assert(self.blocks@ == old_blocks.push(n));
            assert(self.block_len(b as int) == n * ps);
            assert forall|i: int| 0 <= i < self.regions@.len() implies self.region_in_blocks(#[trigger] self.regions@[i]) by {
                if i < old_regions.len() {
                    assert(self.regions@[i] == old_regions[i]);
                    assert(self.block_len(self.regions@[i].block) == old(self).block_len(self.regions@[i].block));
                }
            }
            assert forall|bb: int| 0 <= bb < self.blocks@.len() implies #[trigger] self.block_len(bb) <= usize::MAX by {
                if bb < old_blocks.len() {
                    assert(self.block_len(bb) == old(self).block_len(bb));
                }
            }
        }
        Ok(p)
    }

    /// Holds when `p` lies inside one of the allocator's blocks.
    pub fn owns_pointer(&self, p: Pointer) -> (r: bool)
        requires
            self.wf(),
        ensures
            r == self.owns(p),
    {
        if p.block >= self.blocks.len() {
            return false;
        }
        proof {
            assert(self.block_len(p.block as int) <= usize::MAX);
        }
        p.offset < self.blocks[p.block] * self.page_size
    }
}

/// The total page count of a list of blocks.
pub open spec fn sum_pages(s: Seq<usize>) -> int
    decreases s.len(),
{
    if s.len() == 0 {
        0
    } else {
        sum_pages(s.drop_last()) + s.last()
    }
}

proof fn lemma_sum_pages_push(s: Seq<usize>, n: usize)
    ensures
        sum_pages(s.push(n)) == sum_pages(s) + n,
{
    assert(s.push(n).drop_last() == s);
}


/// Any two regions an allocator has handed out share no byte, each lies in
/// the allocator's blocks after the block's record, and every byte of each is
/// owned by the allocator.
pub proof fn lemma_handed_out_disjoint(pa: &PageAllocator, i: int, j: int)
    requires
        pa.wf(),
        0 <= i < pa.handed_out().len(),
        0 <= j < pa.handed_out().len(),
        i != j,
    ensures
        PageAllocator::disjoint(pa.handed_out()[i], pa.handed_out()[j]),
        pa.region_in_blocks(pa.handed_out()[i]),
        forall|off: int|
            pa.handed_out()[i].offset <= off < pa.handed_out()[i].offset + pa.handed_out()[i].len
                ==> #[trigger] pa.owns(Pointer { block: pa.handed_out()[i].block as usize, offset: off as usize }),
{
    let rs = pa.handed_out();
    assert(pa.region_in_blocks(rs[i]));
    assert(pa.region_in_blocks(rs[j]));
    assert(pa.block_len(rs[i].block) <= usize::MAX);
    assert forall|off: int|
        rs[i].offset <= off < rs[i].offset + rs[i].len implies #[trigger] pa.owns(
            Pointer { block: rs[i].block as usize, offset: off as usize },
        ) by {
        assert((rs[i].block as usize) as int == rs[i].block);
        assert((off as usize) as int == off);
    }
    if i < j {
        if rs[i].block == rs[j].block {
            assert(rs[i].offset + rs[i].len <= rs[j].offset);
        }
    } else {
        if rs[i].block == rs[j].block {
            assert(rs[j].offset + rs[j].len <= rs[i].offset);
        }
    }
}

} // verus!
