use vstd::prelude::*;

verus! {

/// The largest file the writer produces: dump offsets are 32-bit.
pub const MAX_FILE_LEN: u64 = 0xffff_ffff;

/// Why writing the dump image failed.
#[derive(Debug, Clone, Copy, PartialEq, Eq, Structural)]
pub enum WriterError {
    /// The file would outgrow 32-bit offsets.
    TooLarge,
    /// A write would leave its reservation.
    OutOfBounds,
}

/// Where a stream or record lies in the file: its size and offset.
#[derive(Debug, Clone, Copy, PartialEq, Eq, Structural)]
pub struct Location {
    pub data_size: u32,
    pub rva: u32,
}

/// Space set aside in the file before its contents are known: an offset and
/// a fixed size that later writes stay inside.
#[derive(Debug, Clone, Copy, PartialEq, Eq, Structural)]
pub struct Reservation {
    pub pos: u64,
    pub size: u64,
}

impl Reservation {
    /// The reservation as a file location.
    pub fn location(&self) -> (r: Location)
        requires
            self.pos + self.size <= MAX_FILE_LEN,
        ensures
            r.rva == self.pos,
            r.data_size == self.size,
    {
        Location { data_size: self.size as u32, rva: self.pos as u32 }
    }
}

/// The image of a file being written front to back by reservations: space is
/// set aside in page-sized steps, zero-filled, and filled in later at the
/// reserved offsets.
pub struct FileWriter {
    buf: Vec<u8>,
    page_size: u64,
    pos: u64,
}

impl View for FileWriter {
    type V = Seq<u8>;

    closed spec fn view(&self) -> Seq<u8> {
        self.buf@
    }
}

/// `s` with `b` written over it at `at`.
pub open spec fn overwrite(s: Seq<u8>, at: int, b: Seq<u8>) -> Seq<u8> {
    Seq::new(s.len(), |i: int| if at <= i < at + b.len() { b[i - at] } else { s[i] })
}

impl FileWriter {
    /// The offset where the next reservation starts.
    pub closed spec fn spec_position(&self) -> int {
        self.pos as int
    }

    /// The page size the file grows by.
    pub closed spec fn spec_page_size(&self) -> int {
        self.page_size as int
    }

    pub open spec fn wf(&self) -> bool {
        self.spec_page_size() > 0 && self.spec_position() <= self@.len() <= MAX_FILE_LEN
    }

    /// The file length after reserving `size` more bytes.
    pub open spec fn grown_len(&self, size: int) -> int {
        if self@.len() - self.spec_position() >= size {
            self@.len() as int
        } else {
            self@.len() + (size / self.spec_page_size() + 1) * self.spec_page_size()
        }
    }

    /// An empty file growing by pages of `page_size` bytes.
    pub fn new(page_size: u64) -> (r: Self)
        requires
            page_size > 0,
        ensures
            r.wf(),
            r@ == Seq::<u8>::empty(),
            r.spec_position() == 0,
            r.spec_page_size() == page_size,
    {
        FileWriter { buf: Vec::new(), page_size, pos: 0 }
    }

    /// Where the next reservation starts.
    pub fn position(&self) -> (r: u64)
        ensures
            r == self.spec_position(),
    {
        self.pos
    }

    /// The bytes of the file.
    pub fn as_bytes(&self) -> (r: &[u8])
        ensures
            r@ == self@,
    {
        self.buf.as_slice()
    }

    /// Sets aside `size` bytes at the current position, growing the file by
    /// whole pages when the space left is too short.
    pub fn reserve_raw(&mut self, size: u64) -> (r: Result<Reservation, WriterError>)
        requires
            old(self).wf(),
        ensures
            final(self).wf(),
            final(self).spec_page_size() == old(self).spec_page_size(),
            r is Ok <==> old(self).grown_len(size as int) <= MAX_FILE_LEN,
            r is Ok ==> ({
                let res = r->Ok_0;
                &&& res.pos == old(self).spec_position()
                &&& res.size == size
                &&& final(self).spec_position() == old(self).spec_position() + size
                &&& final(self)@.len() == old(self).grown_len(size as int)
                &&& final(self)@.subrange(0, old(self)@.len() as int) == old(self)@
                &&& forall|i: int| old(self)@.len() <= i < final(self)@.len() ==> final(self)@[i] == 0u8
            }),
            r is Err ==> *final(self) == *old(self),
    {
        let len = self.buf.len() as u64;
        let unwritten = len - self.pos;
        if unwritten < size {
            let ps = self.page_size;
            if size / ps >= (MAX_FILE_LEN - len) / ps {
                proof {
                    let n = size / ps + 1;
                    assert(n * ps > MAX_FILE_LEN - len) by (nonlinear_arith)
                        requires n > ((MAX_FILE_LEN - len) as int) / (ps as int), ps > 0, MAX_FILE_LEN - len >= 0;
                }
                return Err(WriterError::TooLarge);
            }
            let num_pages = size / ps + 1;
            proof {
                assert(num_pages * ps <= MAX_FILE_LEN - len) by (nonlinear_arith)
                    requires num_pages <= ((MAX_FILE_LEN - len) as int) / (ps as int), ps > 0, MAX_FILE_LEN - len >= 0;
                assert(size < num_pages * ps) by (nonlinear_arith)
                    requires num_pages == (size as int) / (ps as int) + 1, ps > 0;
            }
            let new_len = len + num_pages * ps;
            let ghost before = self.buf@;
            let mut i: u64 = len;
            while i < new_len
                invariant
                    len <= i <= new_len <= MAX_FILE_LEN,
                    self.buf@.len() == i,
                    self.buf@.subrange(0, len as int) == before,
                    before.len() == len,
                    forall|k: int| len <= k < i ==> self.buf@[k] == 0u8,
                    self.page_size == ps,
                    self.pos <= len,
                    self.pos == old(self).pos,
                    ps == old(self).page_size,
                decreases new_len - i,
            {
                self.buf.push(0u8);
                assert(self.buf@.subrange(0, len as int) == before);
                i = i + 1;
            }
        } else {
            assert(self.buf@.subrange(0, len as int) == self.buf@);
        }
        let pos = self.pos;
        self.pos = self.pos + size;
        Ok(Reservation { pos, size })
    }

    /// Writes `bytes` at `offset` inside `res`, leaving the rest of the file
    /// and the position as they were. Fails when the bytes would leave the
    /// reservation or the file.
    pub fn write(&mut self, res: Reservation, offset: u64, bytes: &[u8]) -> (r: Result<(), WriterError>)
        requires
            old(self).wf(),
        ensures
            final(self).wf(),
            final(self).spec_position() == old(self).spec_position(),
            final(self).spec_page_size() == old(self).spec_page_size(),
            r is Ok <==> offset + bytes@.len() <= res.size && res.pos + res.size <= old(self)@.len(),
            r is Ok ==> final(self)@ == overwrite(old(self)@, res.pos + offset, bytes@),
            r is Err ==> *final(self) == *old(self),
    {
        let len = self.buf.len() as u64;
        let n = bytes.len() as u64;
        if offset > res.size || n > res.size - offset || res.pos > len || res.size > len - res.pos {
            return Err(WriterError::OutOfBounds);
        }
        let at = (res.pos + offset) as usize;
        let ghost before = self.buf@;
        let mut i: usize = 0;
        while i < bytes.len()
            invariant
                i <= bytes@.len(),
                at + bytes@.len() <= before.len(),
                self.buf@.len() == before.len(),
                forall|k: int| 0 <= k < before.len() ==> #[trigger] self.buf@[k] == (if at <= k < at + i { bytes@[k - at] } else { before[k] }),
                self.pos <= before.len() <= MAX_FILE_LEN,
                self.page_size > 0,
                self.pos == old(self).pos,
                self.page_size == old(self).page_size,
            decreases bytes@.len() - i,
        {
            self.buf.set(at + i, bytes[i]);
            i = i + 1;
        }
        assert(self.buf@ =~= overwrite(before, res.pos + offset, bytes@));
        Ok(())
    }
}


/// Reserving `size` bytes grows the file by at most `size` and a page.
pub proof fn lemma_grown_len_bound(fw: &FileWriter, size: int)
    requires
        fw.wf(),
        size >= 0,
    ensures
        fw.grown_len(size) <= fw@.len() + size + fw.spec_page_size(),
{
    let ps = fw.spec_page_size();
    if fw@.len() - fw.spec_position() < size {
        assert((size / ps) * ps <= size) by (nonlinear_arith)
            requires ps > 0, size >= 0;
        assert((size / ps + 1) * ps == (size / ps) * ps + ps) by (nonlinear_arith);
    }
}

/// A reserved record of one fixed size.
#[derive(Debug, Clone, Copy, PartialEq, Eq, Structural)]
pub struct MDItem {
    pub reservation: Reservation,
}

/// A reserved array of records of `elem_size` bytes.
#[derive(Debug, Clone, Copy, PartialEq, Eq, Structural)]
pub struct MDArray {
    pub reservation: Reservation,
    pub elem_size: u64,
}

/// A reserved header of `header_size` bytes followed by an array of records
/// of `elem_size` bytes.
#[derive(Debug, Clone, Copy, PartialEq, Eq, Structural)]
pub struct MDHeaderArray {
    pub reservation: Reservation,
    pub header_size: u64,
    pub elem_size: u64,
}

/// Writing at or past `k` leaves the bytes before `k` alone.
pub proof fn lemma_overwrite_keeps_prefix(s: Seq<u8>, at: int, b: Seq<u8>, k: int)
    requires
        0 <= k <= at,
        k <= s.len(),
    ensures
        overwrite(s, at, b).subrange(0, k) == s.subrange(0, k),
{
    assert(overwrite(s, at, b).subrange(0, k) =~= s.subrange(0, k));
}

/// Writing elsewhere leaves the range `[lo, hi)` alone.
pub proof fn lemma_overwrite_keeps_range(s: Seq<u8>, at: int, b: Seq<u8>, lo: int, hi: int)
    requires
        0 <= lo <= hi <= s.len(),
        at + b.len() <= lo || hi <= at,
    ensures
        overwrite(s, at, b).subrange(lo, hi) == s.subrange(lo, hi),
{
    assert(overwrite(s, at, b).subrange(lo, hi) =~= s.subrange(lo, hi));
}

/// What was written lands where it was written.
pub proof fn lemma_overwrite_lands(s: Seq<u8>, at: int, b: Seq<u8>)
    requires
        0 <= at,
        at + b.len() <= s.len(),
    ensures
        overwrite(s, at, b).subrange(at, at + b.len()) == b,
{
    assert(overwrite(s, at, b).subrange(at, at + b.len()) =~= b);
}

impl FileWriter {
    /// Sets aside one record of `size` bytes.
    pub fn reserve(&mut self, size: u64) -> (r: Result<MDItem, WriterError>)
        requires
            old(self).wf(),
        ensures
            final(self).wf(),
            final(self).spec_page_size() == old(self).spec_page_size(),
            r is Ok <==> old(self).grown_len(size as int) <= MAX_FILE_LEN,
            r is Ok ==> ({
                let res = r->Ok_0.reservation;
                &&& res.pos == old(self).spec_position() && res.size == size
                &&& final(self).spec_position() == old(self).spec_position() + size
                &&& final(self)@.len() == old(self).grown_len(size as int)
                &&& final(self)@.len() >= old(self)@.len()
                &&& final(self)@.subrange(0, old(self)@.len() as int) == old(self)@
            }),
            r is Err ==> *final(self) == *old(self),
    {
        match self.reserve_raw(size) {
            Ok(reservation) => Ok(MDItem { reservation }),
            Err(e) => Err(e),
        }
    }

    /// Sets aside an array of `count` records of `elem_size` bytes.
    pub fn reserve_array(&mut self, elem_size: u64, count: u64) -> (r: Result<MDArray, WriterError>)
        requires
            old(self).wf(),
        ensures
            final(self).wf(),
            final(self).spec_page_size() == old(self).spec_page_size(),
            r is Ok ==> ({
                let res = r->Ok_0.reservation;
                &&& r->Ok_0.elem_size == elem_size
                &&& res.pos == old(self).spec_position() && res.size == elem_size * count
                &&& final(self).spec_position() == old(self).spec_position() + elem_size * count
                &&& final(self)@.len() == old(self).grown_len(elem_size * count)
                &&& final(self)@.len() >= old(self)@.len()
                &&& final(self)@.subrange(0, old(self)@.len() as int) == old(self)@
            }),
            r is Err ==> *final(self) == *old(self),
            r is Err <==> elem_size * count > MAX_FILE_LEN || old(self).grown_len(elem_size * count) > MAX_FILE_LEN,
    {
        if count > 0 && elem_size > MAX_FILE_LEN / count {
            proof {
                assert(elem_size * count > MAX_FILE_LEN) by (nonlinear_arith)
                    requires elem_size > (MAX_FILE_LEN as int) / (count as int), count > 0;
            }
            return Err(WriterError::TooLarge);
        }
        proof {
            if count > 0 {
                assert(elem_size * count <= MAX_FILE_LEN) by (nonlinear_arith)
                    requires elem_size <= (MAX_FILE_LEN as int) / (count as int), count > 0;
            }
        }
        match self.reserve_raw(elem_size * count) {
            Ok(reservation) => Ok(MDArray { reservation, elem_size }),
            Err(e) => Err(e),
        }
    }

    /// Sets aside a header of `header_size` bytes followed by `count` records
    /// of `elem_size` bytes.
    pub fn reserve_header_array(&mut self, header_size: u64, elem_size: u64, count: u64) -> (r: Result<MDHeaderArray, WriterError>)
        requires
            old(self).wf(),
            header_size <= MAX_FILE_LEN,
        ensures
            final(self).wf(),
            final(self).spec_page_size() == old(self).spec_page_size(),
            r is Ok ==> ({
                let res = r->Ok_0.reservation;
                &&& r->Ok_0.header_size == header_size && r->Ok_0.elem_size == elem_size
                &&& res.pos == old(self).spec_position() && res.size == header_size + elem_size * count
                &&& final(self).spec_position() == res.pos + res.size
                &&& final(self)@.len() >= final(self).spec_position()
                &&& final(self)@.len() >= old(self)@.len()
                &&& final(self)@.len() == old(self).grown_len(header_size + elem_size * count)
                &&& final(self)@.subrange(0, old(self)@.len() as int) == old(self)@
            }),
            r is Err ==> *final(self) == *old(self),
            r is Err <==> header_size + elem_size * count > MAX_FILE_LEN || old(self).grown_len(header_size + elem_size * count) > MAX_FILE_LEN,
    {
        if count > 0 && elem_size > (MAX_FILE_LEN - header_size) / count {
            proof {
                assert(elem_size * count > MAX_FILE_LEN - header_size) by (nonlinear_arith)
                    requires elem_size > ((MAX_FILE_LEN - header_size) as int) / (count as int), count > 0;
            }
            return Err(WriterError::TooLarge);
        }
        proof {
            if count > 0 {
                assert(elem_size * count <= MAX_FILE_LEN - header_size) by (nonlinear_arith)
                    requires elem_size <= ((MAX_FILE_LEN - header_size) as int) / (count as int), count > 0;
            }
        }
        match self.reserve_raw(header_size + elem_size * count) {
            Ok(reservation) => Ok(MDHeaderArray { reservation, header_size, elem_size }),
            Err(e) => Err(e),
        }
    }
}

impl MDItem {
    /// Where the record lies.
    pub fn location(&self) -> (r: Location)
        requires
            self.reservation.pos + self.reservation.size <= MAX_FILE_LEN,
        ensures
            r.rva == self.reservation.pos && r.data_size == self.reservation.size,
    {
        self.reservation.location()
    }

    /// Writes the encoded record.
    pub fn write(&self, item: &[u8], fw: &mut FileWriter) -> (r: Result<(), WriterError>)
        requires
            old(fw).wf(),
        ensures
            final(fw).wf(),
            final(fw).spec_position() == old(fw).spec_position(),
            final(fw).spec_page_size() == old(fw).spec_page_size(),
            r is Ok <==> item@.len() <= self.reservation.size && self.reservation.pos + self.reservation.size <= old(fw)@.len(),
            r is Ok ==> final(fw)@ == overwrite(old(fw)@, self.reservation.pos as int, item@),
            r is Err ==> *final(fw) == *old(fw),
    {
        fw.write(self.reservation, 0, item)
    }
}

impl MDArray {
    /// Where the array lies.
    pub fn location(&self) -> (r: Location)
        requires
            self.reservation.pos + self.reservation.size <= MAX_FILE_LEN,
        ensures
            r.rva == self.reservation.pos && r.data_size == self.reservation.size,
    {
        self.reservation.location()
    }

    /// Writes the encoded record at `index`.
    pub fn write(&self, index: u64, item: &[u8], fw: &mut FileWriter) -> (r: Result<(), WriterError>)
        requires
            old(fw).wf(),
            self.elem_size * index <= MAX_FILE_LEN,
        ensures
            final(fw).wf(),
            final(fw).spec_position() == old(fw).spec_position(),
            final(fw).spec_page_size() == old(fw).spec_page_size(),
            r is Ok <==> self.elem_size * index + item@.len() <= self.reservation.size && self.reservation.pos + self.reservation.size <= old(fw)@.len(),
            r is Ok ==> final(fw)@ == overwrite(old(fw)@, self.reservation.pos + self.elem_size * index, item@),
            r is Err ==> *final(fw) == *old(fw),
    {
        fw.write(self.reservation, self.elem_size * index, item)
    }
}

impl MDHeaderArray {
    /// Where the header and array lie.
    pub fn location(&self) -> (r: Location)
        requires
            self.reservation.pos + self.reservation.size <= MAX_FILE_LEN,
        ensures
            r.rva == self.reservation.pos && r.data_size == self.reservation.size,
    {
        self.reservation.location()
    }

    /// Writes the encoded header.
    pub fn write_header(&self, header: &[u8], fw: &mut FileWriter) -> (r: Result<(), WriterError>)
        requires
            old(fw).wf(),
        ensures
            final(fw).wf(),
            final(fw).spec_position() == old(fw).spec_position(),
            final(fw).spec_page_size() == old(fw).spec_page_size(),
            r is Ok <==> header@.len() <= self.reservation.size && self.reservation.pos + self.reservation.size <= old(fw)@.len(),
            r is Ok ==> final(fw)@ == overwrite(old(fw)@, self.reservation.pos as int, header@),
            r is Err ==> *final(fw) == *old(fw),
    {
        fw.write(self.reservation, 0, header)
    }

    /// Writes the encoded record at `index`, after the header.
    pub fn write(&self, index: u64, item: &[u8], fw: &mut FileWriter) -> (r: Result<(), WriterError>)
        requires
            old(fw).wf(),
            self.header_size + self.elem_size * index <= MAX_FILE_LEN,
        ensures
            final(fw).wf(),
            final(fw).spec_position() == old(fw).spec_position(),
            final(fw).spec_page_size() == old(fw).spec_page_size(),
            r is Ok <==> self.header_size + self.elem_size * index + item@.len() <= self.reservation.size && self.reservation.pos + self.reservation.size <= old(fw)@.len(),
            r is Ok ==> final(fw)@ == overwrite(old(fw)@, self.reservation.pos + self.header_size + self.elem_size * index, item@),
            r is Err ==> *final(fw) == *old(fw),
    {
        fw.write(self.reservation, self.header_size + self.elem_size * index, item)
    }
}

} // verus!
