use vstd::prelude::*;
use crate::page_allocator::{AllocError, PageAllocator, Pointer, sum_pages, PAGE_HEADER_SIZE};

verus! {

/// The allocator that page-backed arrays draw their buffers from.
pub struct Allocator {
    inner: PageAllocator,
}

/// Why a buffer could not be grown.
#[derive(Debug, Clone, Copy, PartialEq, Eq, Structural)]
pub enum TryReserveError {
    /// The capacity asked for overflows, or its byte size is too large.
    CapacityOverflow,
    /// The allocator could not serve the request.
    AllocError,
}

impl Allocator {
    /// The page allocator behind this one.
    pub closed spec fn pages(&self) -> PageAllocator {
        self.inner
    }

    pub open spec fn wf(&self) -> bool {
        self.pages().wf()
    }

    /// Holds when a request of `bytes` bytes can be served.
    pub open spec fn can_alloc(&self, bytes: int) -> bool {
        self.pages().fits_current(bytes) || (self.pages().pages_for(bytes)
            * self.pages().spec_page_size() <= usize::MAX && sum_pages(self.pages().block_pages())
            + self.pages().pages_for(bytes) <= usize::MAX)
    }

    /// A fresh allocator over pages of `page_size` bytes.
    pub fn new(page_size: usize) -> (r: Self)
        requires
            page_size > PAGE_HEADER_SIZE,
        ensures
            r.wf(),
            r.pages().block_pages() == Seq::<usize>::empty(),
    {
        Allocator { inner: PageAllocator::new(page_size) }
    }

    /// Serves a request of `size` bytes.
    pub fn allocate(&mut self, size: usize) -> (r: Result<Pointer, AllocError>)
        requires
            old(self).wf(),
        ensures
            final(self).wf(),
            final(self).pages().spec_page_size() == old(self).pages().spec_page_size(),
            r is Ok <==> old(self).can_alloc(size as int),
            r is Err ==> *final(self) == *old(self),
            r is Ok ==> final(self).pages().handed_out().len() == old(self).pages().handed_out().len() + 1,
            r is Ok ==> allocated(old(self).pages(), final(self).pages(), size as int),
    {
        self.inner.alloc_raw(size)
    }

    /// The number of pages obtained so far.
    pub fn pages_allocated(&self) -> (r: usize)
        requires
            self.wf(),
        ensures
            r == sum_pages(self.pages().block_pages()),
    {
        self.inner.pages_allocated()
    }

    /// Holds when `p` lies in memory this allocator obtained.
    pub fn owns_pointer(&self, p: Pointer) -> (r: bool)
        requires
            self.wf(),
        ensures
            r == self.pages().owns(p),
    {
        self.inner.owns_pointer(p)
    }
}

/// How a request of `size` bytes served by `a` changes its blocks: none are
/// added when it fits in the current page, otherwise one block of
/// `pages_for(size)` pages.
pub open spec fn allocated(a: PageAllocator, b: PageAllocator, size: int) -> bool {
    if a.fits_current(size) {
        b.block_pages() == a.block_pages()
    } else {
        b.block_pages() == a.block_pages().push(a.pages_for(size) as usize)
    }
}

/// The smallest capacity a growing buffer takes for elements of `elem` bytes.
pub open spec fn min_non_zero_cap(elem: int) -> int {
    if elem == 1 {
        8
    } else if elem <= 1024 {
        4
    } else {
        1
    }
}

/// The capacity an amortized grow picks: at least double the old one, at
/// least what is required, and at least the minimum for the element size.
pub open spec fn amortized_cap(cap: int, required: int, elem: int) -> int {
    let c = if 2 * cap > required { 2 * cap } else { required };
    if min_non_zero_cap(elem) > c { min_non_zero_cap(elem) } else { c }
}

/// The bookkeeping of a buffer of `T` drawn from an `Allocator`: where it
/// lies and how many elements it holds room for.
pub struct RawVec<T> {
    ptr: Option<Pointer>,
    cap: usize,
    allocator: Allocator,
    _elems: core::marker::PhantomData<T>,
}

impl<T> RawVec<T> {
    pub closed spec fn spec_capacity(&self) -> int {
        if size_of::<T>() == 0 { usize::MAX as int } else { self.cap as int }
    }

    pub closed spec fn spec_alloc(&self) -> Allocator {
        self.allocator
    }

    pub closed spec fn spec_ptr(&self) -> Option<Pointer> {
        self.ptr
    }

    pub open spec fn wf(&self) -> bool {
        self.spec_alloc().wf() && self.spec_capacity() * size_of::<T>() <= isize::MAX
    }

    /// Holds when a buffer of `cap` elements can be obtained.
    pub open spec fn can_hold(&self, cap: int) -> bool {
        cap * size_of::<T>() <= isize::MAX && self.spec_alloc().can_alloc(cap * size_of::<T>())
    }

    /// An empty buffer that has drawn nothing from `alloc`.
    pub fn new_in(alloc: Allocator) -> (r: Self)
        requires
            alloc.wf(),
        ensures
            r.wf(),
            r.spec_capacity() == (if size_of::<T>() == 0 { usize::MAX as int } else { 0 }),
            r.spec_alloc() == alloc,
            r.spec_ptr() is None,
    {
        let elem = core::mem::size_of::<T>();
        proof {
            if elem == 0 {
                assert(usize::MAX * elem == 0) by (nonlinear_arith)
                    requires elem == 0;
            }
        }
        RawVec { ptr: None, cap: 0, allocator: alloc, _elems: core::marker::PhantomData }
    }

    /// A buffer with room for exactly `capacity` elements.
    pub fn with_capacity_in(capacity: usize, alloc: Allocator) -> (r: Result<Self, TryReserveError>)
        requires
            alloc.wf(),
        ensures
            match r {
                Ok(v) => v.wf() && (size_of::<T>() != 0 ==> v.spec_capacity() == capacity),
                Err(e) => size_of::<T>() != 0 && (e == TryReserveError::CapacityOverflow <==> capacity
                    * size_of::<T>() > isize::MAX) && (e == TryReserveError::AllocError
                    ==> !alloc.can_alloc(capacity * size_of::<T>())),
            },
    {
        let mut v = Self::new_in(alloc);
        let elem = core::mem::size_of::<T>();
        if elem == 0 {
            return Ok(v);
        }
        match v.grow_to(capacity) {
            Ok(()) => Ok(v),
            Err(e) => Err(e),
        }
    }

    /// A buffer with room for exactly `capacity` elements, whose memory the
    /// kernel hands over zeroed.
    pub fn with_capacity_zeroed_in(capacity: usize, alloc: Allocator) -> (r: Result<Self, TryReserveError>)
        requires
            alloc.wf(),
        ensures
            match r {
                Ok(v) => v.wf() && (size_of::<T>() != 0 ==> v.spec_capacity() == capacity),
                Err(e) => size_of::<T>() != 0 && (e == TryReserveError::CapacityOverflow <==> capacity
                    * size_of::<T>() > isize::MAX) && (e == TryReserveError::AllocError
                    ==> !alloc.can_alloc(capacity * size_of::<T>())),
            },
    {
        Self::with_capacity_in(capacity, alloc)
    }

    /// Where the buffer lies, `None` before anything was drawn.
    pub fn ptr(&self) -> (r: Option<Pointer>)
        ensures
            r == self.spec_ptr(),
    {
        self.ptr
    }

    /// How many elements the buffer has room for.
    pub fn capacity(&self) -> (r: usize)
        ensures
            r == self.spec_capacity(),
    {
        if core::mem::size_of::<T>() == 0 { usize::MAX } else { self.cap }
    }

    /// The allocator the buffer draws from.
    pub fn alloc_ref(&self) -> (r: &Allocator)
        ensures
            *r == self.spec_alloc(),
    {
        &self.allocator
    }

    /// Draws a buffer of exactly `cap` elements from the allocator.
    fn grow_to(&mut self, cap: usize) -> (r: Result<(), TryReserveError>)
        requires
            old(self).wf(),
            size_of::<T>() != 0,
        ensures
            final(self).wf(),
            r is Ok ==> allocated(old(self).spec_alloc().pages(), final(self).spec_alloc().pages(), cap * size_of::<T>()),
            match r {
                Ok(()) => final(self).spec_capacity() == cap,
                Err(e) => *final(self) == *old(self) && (e == TryReserveError::CapacityOverflow
                    <==> cap * size_of::<T>() > isize::MAX) && (e
                    == TryReserveError::AllocError ==> !old(self).spec_alloc().can_alloc(
                    cap * size_of::<T>(),
                )),
            },
            r is Ok <==> old(self).can_hold(cap as int),
    {
        let elem = core::mem::size_of::<T>();
        let limit = isize::MAX as usize;
        if cap > limit / elem {
            proof {
                assert(cap * elem > isize::MAX) by (nonlinear_arith)
                    requires cap > (limit as int) / (elem as int), elem > 0, limit == isize::MAX;
            }
            return Err(TryReserveError::CapacityOverflow);
        }
        proof {
            assert(cap * elem <= isize::MAX) by (nonlinear_arith)
                requires cap <= (limit as int) / (elem as int), elem > 0, limit == isize::MAX;
        }
        let bytes = cap * elem;
        match self.allocator.allocate(bytes) {
            Ok(p) => {
                self.ptr = Some(p);
                self.cap = cap;
                Ok(())
            },
            Err(_) => Err(TryReserveError::AllocError),
        }
    }

    /// Makes room for `len + additional` elements, growing to the amortized
    /// capacity when the buffer is too small.
    pub fn try_reserve(&mut self, len: usize, additional: usize) -> (r: Result<(), TryReserveError>)
        requires
            old(self).wf(),
        ensures
            final(self).wf(),
            old(self).spec_capacity() - len >= additional ==> r is Ok && *final(self) == *old(self),
            old(self).spec_capacity() - len < additional ==> (r is Ok <==> (len + additional
                <= usize::MAX && size_of::<T>() != 0 && old(self).can_hold(
                amortized_cap(old(self).spec_capacity(), len + additional, size_of::<T>() as int),
            ))),
            old(self).spec_capacity() - len < additional && (len + additional > usize::MAX || size_of::<T>() == 0)
                ==> r == Err::<(), TryReserveError>(TryReserveError::CapacityOverflow),
            old(self).spec_capacity() - len < additional && r is Ok ==> allocated(
                old(self).spec_alloc().pages(),
                final(self).spec_alloc().pages(),
                amortized_cap(old(self).spec_capacity(), len + additional, size_of::<T>() as int) * size_of::<T>(),
            ),
            old(self).spec_capacity() - len < additional ==> match r {
                Ok(()) => len + additional <= usize::MAX && final(self).spec_capacity() == amortized_cap(
                    old(self).spec_capacity(),
                    len + additional,
                    size_of::<T>() as int,
                ),
                Err(_) => *final(self) == *old(self),
            },
    {
        let cap = self.capacity();
        if cap >= len && additional <= cap - len {
            return Ok(());
        }
        if core::mem::size_of::<T>() == 0 {
            return Err(TryReserveError::CapacityOverflow);
        }
        if additional > usize::MAX - len {
            return Err(TryReserveError::CapacityOverflow);
        }
        let required = len + additional;
        let elem = core::mem::size_of::<T>();
        let doubled: usize = if cap > usize::MAX / 2 { usize::MAX } else { 2 * cap };
        let c = if doubled > required { doubled } else { required };
        let min_cap: usize = if elem == 1 { 8 } else if elem <= 1024 { 4 } else { 1 };
        let c = if min_cap > c { min_cap } else { c };
        proof {
            assert(cap * elem <= isize::MAX);
            assert(cap <= isize::MAX) by (nonlinear_arith)
                requires cap * elem <= isize::MAX, elem >= 1;
            assert(doubled == 2 * cap);
            assert(c == amortized_cap(cap as int, required as int, elem as int));
        }
        self.grow_to(c)
    }

    /// Makes room for `len + additional` elements, growing to exactly that
    /// when the buffer is too small.
    pub fn try_reserve_exact(&mut self, len: usize, additional: usize) -> (r: Result<(), TryReserveError>)
        requires
            old(self).wf(),
        ensures
            final(self).wf(),
            old(self).spec_capacity() - len >= additional ==> r is Ok && *final(self) == *old(self),
            old(self).spec_capacity() - len < additional ==> (r is Ok <==> (len + additional
                <= usize::MAX && size_of::<T>() != 0 && old(self).can_hold(len + additional))),
            old(self).spec_capacity() - len < additional && (len + additional > usize::MAX || size_of::<T>() == 0)
                ==> r == Err::<(), TryReserveError>(TryReserveError::CapacityOverflow),
            old(self).spec_capacity() - len < additional ==> match r {
                Ok(()) => final(self).spec_capacity() == len + additional,
                Err(_) => *final(self) == *old(self),
            },
    {
        let cap = self.capacity();
        if cap >= len && additional <= cap - len {
            return Ok(());
        }
        if core::mem::size_of::<T>() == 0 || additional > usize::MAX - len {
            return Err(TryReserveError::CapacityOverflow);
        }
        self.grow_to(len + additional)
    }

    /// As `try_reserve`, for callers that know the request can be served.
    pub fn reserve(&mut self, len: usize, additional: usize)
        requires
            old(self).wf(),
            old(self).spec_capacity() - len < additional ==> len + additional <= usize::MAX
                && size_of::<T>() != 0 && old(self).can_hold(
                amortized_cap(old(self).spec_capacity(), len + additional, size_of::<T>() as int),
            ),
        ensures
            final(self).wf(),
            old(self).spec_capacity() - len >= additional ==> *final(self) == *old(self),
            old(self).spec_capacity() - len < additional ==> final(self).spec_capacity()
                == amortized_cap(old(self).spec_capacity(), len + additional, size_of::<T>() as int),
            old(self).spec_capacity() - len < additional ==> allocated(
                old(self).spec_alloc().pages(),
                final(self).spec_alloc().pages(),
                amortized_cap(old(self).spec_capacity(), len + additional, size_of::<T>() as int) * size_of::<T>(),
            ),
    {
        let _ = self.try_reserve(len, additional);
    }

    /// As `try_reserve_exact`, for callers that know the request can be served.
    pub fn reserve_exact(&mut self, len: usize, additional: usize)
        requires
            old(self).wf(),
            old(self).spec_capacity() - len < additional ==> len + additional <= usize::MAX
                && size_of::<T>() != 0 && old(self).can_hold(len + additional),
        ensures
            final(self).wf(),
            old(self).spec_capacity() - len >= additional ==> *final(self) == *old(self),
            old(self).spec_capacity() - len < additional ==> final(self).spec_capacity() == len
                + additional,
    {
        let _ = self.try_reserve_exact(len, additional);
    }

    /// Shrinks the buffer to room for `amount` elements, drawing a buffer of
    /// that size; nothing is drawn when no buffer was drawn before.
    pub fn shrink_to_fit(&mut self, amount: usize) -> (r: Result<(), TryReserveError>)
        requires
            old(self).wf(),
            amount <= old(self).spec_capacity(),
        ensures
            final(self).wf(),
            r is Ok ==> (old(self).spec_ptr() is Some && size_of::<T>() != 0 ==> final(self).spec_capacity() == amount),
            (old(self).spec_ptr() is None || size_of::<T>() == 0) ==> *final(self) == *old(self) && r is Ok,
            old(self).spec_ptr() is Some && size_of::<T>() != 0 ==> (r is Ok <==> old(self).can_hold(amount as int)),
            r is Err ==> *final(self) == *old(self),
    {
        if self.ptr.is_none() || core::mem::size_of::<T>() == 0 {
            return Ok(());
        }
        proof {
            let elem = size_of::<T>() as int;
            assert(amount * elem <= self.cap * elem) by (nonlinear_arith)
                requires amount <= self.cap, elem >= 0;
        }
        self.grow_to(amount)
    }
}

/// A growable array whose buffer is accounted to an `Allocator`: the
/// capacity follows the doubling policy of `RawVec`, each growth draws a
/// buffer of that capacity from the allocator, and the array never holds
/// more elements than its capacity. The elements themselves are kept in a
/// std `Vec`; the allocator model tracks the page bookkeeping only.
pub struct PageVec<T> {
    buf: RawVec<T>,
    elems: Vec<T>,
}

impl<T> View for PageVec<T> {
    type V = Seq<T>;

    closed spec fn view(&self) -> Seq<T> {
        self.elems@
    }
}

impl<T> PageVec<T> {
    pub closed spec fn spec_capacity(&self) -> int {
        self.buf.spec_capacity()
    }

    pub closed spec fn spec_buf(&self) -> RawVec<T> {
        self.buf
    }

    /// The invariant: the buffer is consistent and holds every element.
    pub open spec fn wf(&self) -> bool {
        self.spec_buf().wf() && self@.len() <= self.spec_capacity()
            && self.spec_capacity() == self.spec_buf().spec_capacity()
    }

    /// Holds when `additional` more elements can be made room for.
    pub open spec fn can_grow(&self, additional: int) -> bool {
        self.spec_capacity() - self@.len() >= additional || (self@.len() + additional <= usize::MAX
            && size_of::<T>() != 0 && self.spec_buf().can_hold(
            amortized_cap(self.spec_capacity(), self@.len() + additional, size_of::<T>() as int),
        ))
    }

    /// An empty array drawing from `alloc`.
    pub fn new_in(alloc: Allocator) -> (r: Self)
        requires
            alloc.wf(),
        ensures
            r.wf(),
            r@ == Seq::<T>::empty(),
            r.spec_capacity() == (if size_of::<T>() == 0 { usize::MAX as int } else { 0 }),
    {
        PageVec { buf: RawVec::new_in(alloc), elems: Vec::new() }
    }

    /// An empty array with room for `capacity` elements.
    pub fn with_capacity_in(capacity: usize, alloc: Allocator) -> (r: Result<Self, TryReserveError>)
        requires
            alloc.wf(),
        ensures
            match r {
                Ok(v) => v.wf() && v@ == Seq::<T>::empty() && (size_of::<T>() != 0
                    ==> v.spec_capacity() == capacity),
                Err(_) => size_of::<T>() != 0 && !(capacity * size_of::<T>() <= isize::MAX
                    && alloc.can_alloc(capacity * size_of::<T>())),
            },
    {
        match RawVec::with_capacity_in(capacity, alloc) {
            Ok(buf) => Ok(PageVec { buf, elems: Vec::new() }),
            Err(e) => Err(e),
        }
    }

    /// The buffer's place, length and capacity.
    pub fn into_raw_parts(self) -> (r: (Option<Pointer>, usize, usize))
        ensures
            r.0 == self.spec_buf().spec_ptr(),
            r.1 == self@.len(),
            r.2 == self.spec_capacity(),
    {
        (self.buf.ptr(), self.elems.len(), self.buf.capacity())
    }

    /// How many elements fit without growing.
    pub fn capacity(&self) -> (r: usize)
        ensures
            r == self.spec_capacity(),
    {
        self.buf.capacity()
    }

    /// Makes room for `additional` more elements, growing by the doubling policy.
    pub fn reserve(&mut self, additional: usize)
        requires
            old(self).wf(),
            old(self).can_grow(additional as int),
        ensures
            final(self).wf(),
            final(self)@ == old(self)@,
            final(self).spec_capacity() >= old(self)@.len() + additional,
            old(self).spec_capacity() - old(self)@.len() >= additional ==> final(self).spec_buf() == old(self).spec_buf(),
            old(self).spec_capacity() - old(self)@.len() < additional ==> final(self).spec_capacity() == amortized_cap(
                old(self).spec_capacity(),
                old(self)@.len() + additional,
                size_of::<T>() as int,
            ) && allocated(
                old(self).spec_buf().spec_alloc().pages(),
                final(self).spec_buf().spec_alloc().pages(),
                amortized_cap(old(self).spec_capacity(), old(self)@.len() + additional, size_of::<T>() as int)
                    * size_of::<T>(),
            ),
    {
        let len = self.elems.len();
        self.buf.reserve(len, additional);
        proof {
            let c = old(self).spec_capacity();
            if c - len < additional {
                assert(amortized_cap(c, len + additional, size_of::<T>() as int) >= len + additional);
            }
        }
    }

    /// Makes room for exactly `additional` more elements when there is not
    /// room already.
    pub fn reserve_exact(&mut self, additional: usize)
        requires
            old(self).wf(),
            old(self).spec_capacity() - old(self)@.len() < additional ==> old(self)@.len()
                + additional <= usize::MAX && size_of::<T>() != 0 && old(self).spec_buf().can_hold(
                old(self)@.len() + additional,
            ),
        ensures
            final(self).wf(),
            final(self)@ == old(self)@,
            final(self).spec_capacity() >= old(self)@.len() + additional,
    {
        let len = self.elems.len();
        self.buf.reserve_exact(len, additional);
    }

    /// Lowers the capacity to the length when it is larger and a buffer of
    /// that size can be drawn; otherwise the capacity stays.
    pub fn shrink_to_fit(&mut self)
        requires
            old(self).wf(),
        ensures
            final(self).wf(),
            final(self)@ == old(self)@,
            final(self).spec_capacity() == old(self).spec_capacity() || final(self).spec_capacity() == old(self)@.len(),
            old(self).spec_capacity() > old(self)@.len() && old(self).spec_buf().spec_ptr() is Some
                && size_of::<T>() != 0 && old(self).spec_buf().can_hold(old(self)@.len() as int)
                ==> final(self).spec_capacity() == old(self)@.len(),
    {
        let len = self.elems.len();
        if self.buf.capacity() > len {
            let _ = self.buf.shrink_to_fit(len);
        }
    }

    /// Keeps the first `len` elements, dropping the rest.
    pub fn truncate(&mut self, len: usize)
        requires
            old(self).wf(),
        ensures
            final(self).wf(),
            len <= old(self)@.len() ==> final(self)@ == old(self)@.subrange(0, len as int),
            len > old(self)@.len() ==> final(self)@ == old(self)@,
            final(self).spec_capacity() == old(self).spec_capacity(),
    {
        self.elems.truncate(len);
    }

    /// The elements.
    pub fn as_slice(&self) -> (r: &[T])
        ensures
            r@ == self@,
    {
        self.elems.as_slice()
    }

    /// Where the buffer lies.
    pub fn as_ptr(&self) -> (r: Option<Pointer>)
        ensures
            r == self.spec_buf().spec_ptr(),
    {
        self.buf.ptr()
    }

    /// Where the buffer lies.
    pub fn as_mut_ptr(&mut self) -> (r: Option<Pointer>)
        ensures
            r == old(self).spec_buf().spec_ptr(),
            *final(self) == *old(self),
    {
        self.buf.ptr()
    }

    /// The allocator the array draws from.
    pub fn alloc_ref(&self) -> (r: &Allocator)
        ensures
            *r == self.spec_buf().spec_alloc(),
    {
        self.buf.alloc_ref()
    }

    /// The element at `index`.
    pub fn get(&self, index: usize) -> (r: Option<&T>)
        ensures
            index < self@.len() ==> r == Some(&self@[index as int]),
            index >= self@.len() ==> r is None,
    {
        if index < self.elems.len() { Some(&self.elems[index]) } else { None }
    }

    /// The last element.
    pub fn last(&self) -> (r: Option<&T>)
        ensures
            self@.len() > 0 ==> r == Some(&self@.last()),
            self@.len() == 0 ==> r is None,
    {
        let n = self.elems.len();
        if n > 0 { Some(&self.elems[n - 1]) } else { None }
    }

    /// Replaces the element at `index`.
    pub fn set(&mut self, index: usize, value: T)
        requires
            old(self).wf(),
            index < old(self)@.len(),
        ensures
            final(self).wf(),
            final(self)@ == old(self)@.update(index as int, value),
            final(self).spec_capacity() == old(self).spec_capacity(),
    {
        self.elems.set(index, value);
    }

    /// Removes the element at `index`, moving the last element into its place.
    pub fn swap_remove(&mut self, index: usize) -> (r: T)
        requires
            old(self).wf(),
            index < old(self)@.len(),
        ensures
            final(self).wf(),
            r == old(self)@[index as int],
            final(self)@ == old(self)@.update(index as int, old(self)@.last()).drop_last(),
            final(self).spec_capacity() == old(self).spec_capacity(),
    {
        self.elems.swap_remove(index)
    }

    /// Inserts `element` at `index`, shifting later elements up.
    pub fn insert(&mut self, index: usize, element: T)
        requires
            old(self).wf(),
            index <= old(self)@.len(),
            old(self).can_grow(1),
        ensures
            final(self).wf(),
            final(self)@ == old(self)@.insert(index as int, element),
    {
        if self.elems.len() == self.buf.capacity() {
            self.reserve(1);
        }
        self.elems.insert(index, element);
    }

    /// Removes and returns the element at `index`, shifting later elements down.
    pub fn remove(&mut self, index: usize) -> (r: T)
        requires
            old(self).wf(),
            index < old(self)@.len(),
        ensures
            final(self).wf(),
            r == old(self)@[index as int],
            final(self)@ == old(self)@.remove(index as int),
            final(self).spec_capacity() == old(self).spec_capacity(),
    {
        self.elems.remove(index)
    }

    /// Appends `value`, growing by the doubling policy when full.
    pub fn push(&mut self, value: T)
        requires
            old(self).wf(),
            old(self).can_grow(1),
        ensures
            final(self).wf(),
            final(self)@ == old(self)@.push(value),
            old(self)@.len() < old(self).spec_capacity() ==> final(self).spec_buf() == old(self).spec_buf(),
            old(self)@.len() == old(self).spec_capacity() ==> final(self).spec_capacity() == amortized_cap(
                old(self).spec_capacity(),
                old(self)@.len() + 1int,
                size_of::<T>() as int,
            ) && allocated(
                old(self).spec_buf().spec_alloc().pages(),
                final(self).spec_buf().spec_alloc().pages(),
                amortized_cap(old(self).spec_capacity(), old(self)@.len() + 1int, size_of::<T>() as int) * size_of::<T>(),
            ),
    {
        if self.elems.len() == self.buf.capacity() {
            self.reserve(1);
        }
        self.elems.push(value);
    }

    /// Removes and returns the last element.
    pub fn pop(&mut self) -> (r: Option<T>)
        requires
            old(self).wf(),
        ensures
            final(self).wf(),
            old(self)@.len() == 0 ==> r is None && final(self)@ == old(self)@,
            old(self)@.len() > 0 ==> r == Some(old(self)@.last()) && final(self)@ == old(self)@.drop_last(),
            final(self).spec_capacity() == old(self).spec_capacity(),
    {
        self.elems.pop()
    }

    /// Moves every element of `other` to the end of this array.
    pub fn append(&mut self, other: &mut Self)
        requires
            old(self).wf(),
            old(other).wf(),
            old(self).can_grow(old(other)@.len() as int),
        ensures
            final(self).wf(),
            final(other).wf(),
            final(self)@ == old(self)@ + old(other)@,
            final(other)@ == Seq::<T>::empty(),
    {
        let n = other.elems.len();
        self.reserve(n);
        self.elems.append(&mut other.elems);
    }

    /// Drops every element; the capacity stays.
    pub fn clear(&mut self)
        requires
            old(self).wf(),
        ensures
            final(self).wf(),
            final(self)@ == Seq::<T>::empty(),
            final(self).spec_capacity() == old(self).spec_capacity(),
    {
        self.elems.clear();
    }

    /// The number of elements.
    pub fn len(&self) -> (r: usize)
        ensures
            r == self@.len(),
    {
        self.elems.len()
    }

    /// Holds when there is no element.
    pub fn is_empty(&self) -> (r: bool)
        ensures
            r == (self@.len() == 0),
    {
        self.elems.len() == 0
    }

    /// Keeps the elements for which `f` holds, in their order.
    pub fn retain<F: Fn(&T) -> bool>(&mut self, f: F)
        requires
            old(self).wf(),
            forall|x: &T| #[trigger] f.requires((x,)),
        ensures
            final(self).wf(),
            final(self).spec_capacity() == old(self).spec_capacity(),
            exists|keep: Seq<bool>|
                keep.len() == old(self)@.len() && (forall|i: int| 0 <= i < keep.len() ==> f.ensures((&old(self)@[i],), #[trigger] keep[i]))
                    && final(self)@ == kept(old(self)@, keep),
    {
        let mut rest: Vec<T> = Vec::new();
        core::mem::swap(&mut rest, &mut self.elems);
        let ghost orig = rest@;
        let n = rest.len();
        let mut stack: Vec<T> = Vec::new();
        while rest.len() > 0
            invariant
                rest@.len() + stack@.len() == n,
                n == orig.len(),
                rest@ == orig.subrange(0, rest@.len() as int),
                forall|j: int| 0 <= j < stack@.len() ==> #[trigger] stack@[j] == orig[n - 1 - j],
            decreases rest@.len(),
        {
            let x = rest.pop().unwrap();
            stack.push(x);
        }
        let ghost mut keep: Seq<bool> = Seq::empty();
        let mut out: Vec<T> = Vec::new();
        let mut i: usize = 0;
        while stack.len() > 0
            invariant
                i + stack@.len() == n,
                n == orig.len(),
                forall|j: int| 0 <= j < stack@.len() ==> #[trigger] stack@[j] == orig[n - 1 - j],
                keep.len() == i,
                forall|j: int| 0 <= j < i ==> f.ensures((&orig[j],), #[trigger] keep[j]),
                forall|x: &T| #[trigger] f.requires((x,)),
                out@ == kept(orig.subrange(0, i as int), keep),
                out@.len() <= i,
            decreases stack@.len(),
        {
            let x = stack.pop().unwrap();
            assert(x == orig[i as int]);
            let k = f(&x);
            proof {
                let pre = orig.subrange(0, i as int);
                let post = orig.subrange(0, i + 1);
                assert(post.drop_last() == pre);
                assert(keep.push(k).drop_last() == keep);
            }
            if k {
                out.push(x);
            }
            proof {
                keep = keep.push(k);
            }
            i = i + 1;
        }
        assert(orig.subrange(0, n as int) == orig);
        proof {
            lemma_kept_len(orig, keep);
        }
        self.elems = out;
    }

    /// Removes each element that `same_bucket` finds equal to the element
    /// kept before it; the first element is always kept.
    pub fn dedup_by<F: Fn(&T, &T) -> bool>(&mut self, same_bucket: F)
        requires
            old(self).wf(),
            forall|a: &T, b: &T| #[trigger] same_bucket.requires((a, b)),
        ensures
            final(self).wf(),
            final(self).spec_capacity() == old(self).spec_capacity(),
            exists|keep: Seq<bool>|
                keep.len() == old(self)@.len() && (old(self)@.len() > 0 ==> keep[0])
                    && (forall|i: int| 0 < i < keep.len() ==> same_bucket.ensures(
                        (&old(self)@[i], &kept(old(self)@.subrange(0, i), keep.subrange(0, i)).last()),
                        !#[trigger] keep[i],
                    )) && final(self)@ == kept(old(self)@, keep),
    {
        let mut rest: Vec<T> = Vec::new();
        core::mem::swap(&mut rest, &mut self.elems);
        let ghost orig = rest@;
        let n = rest.len();
        let mut stack: Vec<T> = Vec::new();
        while rest.len() > 0
            invariant
                rest@.len() + stack@.len() == n,
                n == orig.len(),
                rest@ == orig.subrange(0, rest@.len() as int),
                forall|j: int| 0 <= j < stack@.len() ==> #[trigger] stack@[j] == orig[n - 1 - j],
            decreases rest@.len(),
        {
            let x = rest.pop().unwrap();
            stack.push(x);
        }
        let ghost mut keep: Seq<bool> = Seq::empty();
        let mut out: Vec<T> = Vec::new();
        let mut i: usize = 0;
        while stack.len() > 0
            invariant
                i + stack@.len() == n,
                n == orig.len(),
                forall|j: int| 0 <= j < stack@.len() ==> #[trigger] stack@[j] == orig[n - 1 - j],
                keep.len() == i,
                i > 0 ==> keep[0],
                forall|j: int| 0 < j < i ==> same_bucket.ensures(
                    (&orig[j], &kept(orig.subrange(0, j), keep.subrange(0, j)).last()),
                    !#[trigger] keep[j],
                ),
                forall|a: &T, b: &T| #[trigger] same_bucket.requires((a, b)),
                out@ == kept(orig.subrange(0, i as int), keep),
                out@.len() <= i,
                i > 0 ==> out@.len() > 0,
            decreases stack@.len(),
        {
            let x = stack.pop().unwrap();
            assert(x == orig[i as int]);
            let k = if out.len() == 0 {
                true
            } else {
                let last = &out[out.len() - 1];
                !same_bucket(&x, last)
            };
            proof {
                let pre = orig.subrange(0, i as int);
                let post = orig.subrange(0, i + 1);
                assert(post.drop_last() == pre);
                assert(keep.push(k).drop_last() == keep);
                assert(keep.push(k).subrange(0, i as int) == keep);
                assert forall|j: int| 0 < j < i implies keep.push(k).subrange(0, j) == keep.subrange(0, j) by {}
            }
            if k {
                out.push(x);
            }
            proof {
                keep = keep.push(k);
            }
            i = i + 1;
        }
        assert(orig.subrange(0, n as int) == orig);
        proof {
            lemma_kept_len(orig, keep);
        }
        self.elems = out;
    }

    /// Grows to `new_len` elements made by `f`, or truncates to `new_len`.
    pub fn resize_with<F: Fn() -> T>(&mut self, new_len: usize, f: F)
        requires
            old(self).wf(),
            new_len > old(self)@.len() ==> old(self).can_grow(new_len - old(self)@.len()),
            f.requires(()),
        ensures
            final(self).wf(),
            new_len <= old(self)@.len() ==> final(self)@ == old(self)@.subrange(0, new_len as int),
            new_len > old(self)@.len() ==> final(self)@.len() == new_len && final(self)@.subrange(
                0,
                old(self)@.len() as int,
            ) == old(self)@ && forall|i: int|
                old(self)@.len() <= i < new_len ==> f.ensures((), #[trigger] final(self)@[i]),
    {
        let len = self.elems.len();
        if new_len <= len {
            self.elems.truncate(new_len);
            return;
        }
        self.reserve(new_len - len);
        let mut i: usize = len;
        while i < new_len
            invariant
                self.wf(),
                len <= i <= new_len,
                self.spec_capacity() >= new_len,
                self@.len() == i,
                self@.subrange(0, len as int) == old(self)@,
                len == old(self)@.len(),
                f.requires(()),
                forall|k: int| len <= k < i ==> f.ensures((), #[trigger] self@[k]),
            decreases new_len - i,
        {
            let x = f();
            let ghost before = self@;
            self.elems.push(x);
            assert(self@.subrange(0, len as int) == before.subrange(0, len as int));
            i = i + 1;
        }
    }
}

impl<T: Clone> PageVec<T> {
    /// Grows to `new_len` elements with clones of `value`, or truncates to `new_len`.
    pub fn resize(&mut self, new_len: usize, value: T)
        requires
            old(self).wf(),
            new_len > old(self)@.len() ==> old(self).can_grow(new_len - old(self)@.len()),
        ensures
            final(self).wf(),
            new_len <= old(self)@.len() ==> final(self)@ == old(self)@.subrange(0, new_len as int),
            new_len > old(self)@.len() ==> final(self)@.len() == new_len && final(self)@.subrange(
                0,
                old(self)@.len() as int,
            ) == old(self)@ && forall|i: int|
                old(self)@.len() <= i < new_len ==> cloned::<T>(value, #[trigger] final(self)@[i]),
    {
        let len = self.elems.len();
        if new_len > len {
            self.reserve(new_len - len);
        }
        self.elems.resize(new_len, value);
    }

    /// Appends clones of every element of `other`.
    pub fn extend_from_slice(&mut self, other: &[T])
        requires
            old(self).wf(),
            old(self).can_grow(other@.len() as int),
        ensures
            final(self).wf(),
            final(self)@.len() == old(self)@.len() + other@.len(),
            forall|i: int|
                0 <= i < final(self)@.len() ==> if i < old(self)@.len() {
                    final(self)@[i] == old(self)@[i]
                } else {
                    cloned::<T>(other@[i - old(self)@.len()], #[trigger] final(self)@[i])
                },
    {
        self.reserve(other.len());
        self.elems.extend_from_slice(other);
    }
}

/// The elements of `s` whose flag in `keep` is set, in order.
pub open spec fn kept<T>(s: Seq<T>, keep: Seq<bool>) -> Seq<T>
    decreases s.len(),
{
    if s.len() == 0 || keep.len() == 0 {
        Seq::empty()
    } else if keep.last() {
        kept(s.drop_last(), keep.drop_last()).push(s.last())
    } else {
        kept(s.drop_last(), keep.drop_last())
    }
}

proof fn lemma_kept_len<T>(s: Seq<T>, keep: Seq<bool>)
    ensures
        kept(s, keep).len() <= s.len(),
    decreases s.len(),
{
    if s.len() > 0 && keep.len() > 0 {
        lemma_kept_len(s.drop_last(), keep.drop_last());
    }
}

} // verus!
