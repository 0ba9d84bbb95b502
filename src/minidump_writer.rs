use vstd::prelude::*;
use crate::elf::le32;
use crate::file_writer::{
    lemma_grown_len_bound, lemma_overwrite_keeps_prefix, lemma_overwrite_keeps_range, lemma_overwrite_lands, FileWriter,
    Location, MDHeaderArray, WriterError, MAX_FILE_LEN, overwrite,
};
use crate::mapping::MappingInfo;
use crate::sanitize::{sanitize_stack, sanitized};

verus! {

/// `MDMP`, the first four bytes of every dump.
pub const MINIDUMP_SIGNATURE: u32 = 0x504d444d;

/// The format version the dump header carries.
pub const MINIDUMP_VERSION: u32 = 0xa793;

/// The stream type of the thread list.
pub const THREAD_LIST_STREAM: u32 = 3;

/// The stream type of the module list.
pub const MODULE_LIST_STREAM: u32 = 4;

/// The streams a dump holds: the thread list and the module list.
pub const NUM_STREAMS: u32 = 2;

/// Bytes of the file header.
pub const HEADER_SIZE: u64 = 32;

/// Bytes of a directory entry: stream type, then location.
pub const DIRECTORY_ENTRY_SIZE: u64 = 12;

/// Bytes of a thread record: id, suspend count, priority class, priority,
/// environment block, stack memory (start, size, offset), context location.
pub const THREAD_RECORD_SIZE: u64 = 48;

/// Bytes of a module record: base, size, checksum, time stamp, name offset,
/// identifier record location.
pub const MODULE_RECORD_SIZE: u64 = 32;

/// The signature of an identifier record for an ELF module.
pub const CV_SIGNATURE_ELF: u32 = 0x4270454c;

/// Threads past this many, other than the crashing one, get short stacks
/// when the dump would exceed its size limit.
pub const LIMIT_BASE_THREAD_COUNT: usize = 20;

/// The stack size assumed per thread when estimating a dump's size.
pub const LIMIT_AVG_STACK_LEN: u64 = 8192;

/// Room kept for everything but stacks when estimating a dump's size.
pub const LIMIT_FUDGE_FACTOR: u64 = 65536;

/// The stack length kept for threads past the base count when limiting.
pub const MAX_EXTRA_THREAD_STACK: u64 = 2048;

/// The little-endian bytes of a 32-bit value.
pub open spec fn u32_le(v: int) -> Seq<u8> {
    seq![(v % 256) as u8, ((v / 256) % 256) as u8, ((v / 65536) % 256) as u8, ((v / 16777216) % 256) as u8]
}

/// The little-endian bytes of a 64-bit value.
pub open spec fn u64_le(v: int) -> Seq<u8> {
    u32_le(v % 4294967296) + u32_le(v / 4294967296)
}

/// The dump header: signature, version, stream count, directory offset,
/// checksum (zero), time stamp and flags (zero).
pub open spec fn header_bytes(stream_count: int, dir_rva: int, time: int) -> Seq<u8> {
    u32_le(MINIDUMP_SIGNATURE as int) + u32_le(MINIDUMP_VERSION as int) + u32_le(stream_count)
        + u32_le(dir_rva) + u32_le(0) + u32_le(time) + u64_le(0)
}

/// A directory entry: stream type and location.
pub open spec fn directory_bytes(stream_type: int, loc: Location) -> Seq<u8> {
    u32_le(stream_type) + u32_le(loc.data_size as int) + u32_le(loc.rva as int)
}

/// A thread record.
pub open spec fn thread_bytes(tid: int, stack_start: int, stack: Location, context: Location) -> Seq<u8> {
    u32_le(tid) + u32_le(0) + u32_le(0) + u32_le(0) + u64_le(0) + u64_le(stack_start)
        + u32_le(stack.data_size as int) + u32_le(stack.rva as int) + u32_le(context.data_size as int)
        + u32_le(context.rva as int)
}

/// A module record.
pub open spec fn module_bytes(base: int, size: int, name_rva: int, cv: Location) -> Seq<u8> {
    u64_le(base) + u32_le(size) + u32_le(0) + u32_le(0) + u32_le(name_rva) + u32_le(cv.data_size as int)
        + u32_le(cv.rva as int)
}

/// Appends the little-endian bytes of `v`.
pub fn push_u32(out: &mut Vec<u8>, v: u32)
    ensures
        final(out)@ == old(out)@ + u32_le(v as int),
        final(out)@.len() == old(out)@.len() + 4,
{
    out.push((v % 256) as u8);
    out.push(((v / 256) % 256) as u8);
    out.push(((v / 65536) % 256) as u8);
    out.push(((v / 16777216) % 256) as u8);
    assert(final(out)@ =~= old(out)@ + u32_le(v as int));
}

/// Appends the little-endian bytes of `v`.
pub fn push_u64(out: &mut Vec<u8>, v: u64)
    ensures
        final(out)@ == old(out)@ + u64_le(v as int),
        final(out)@.len() == old(out)@.len() + 8,
{
    push_u32(out, (v % 4294967296) as u32);
    push_u32(out, (v / 4294967296) as u32);
    assert(final(out)@ =~= old(out)@ + u64_le(v as int));
}

/// Encodes the dump header.
pub fn encode_header(stream_count: u32, dir_rva: u32, time: u32) -> (r: Vec<u8>)
    ensures
        r@ == header_bytes(stream_count as int, dir_rva as int, time as int),
        r@.len() == HEADER_SIZE,
{
    let mut out: Vec<u8> = Vec::new();
    push_u32(&mut out, MINIDUMP_SIGNATURE);
    push_u32(&mut out, MINIDUMP_VERSION);
    push_u32(&mut out, stream_count);
    push_u32(&mut out, dir_rva);
    push_u32(&mut out, 0);
    push_u32(&mut out, time);
    push_u64(&mut out, 0);
    assert(out@ =~= header_bytes(stream_count as int, dir_rva as int, time as int));
    out
}

/// Encodes a directory entry.
pub fn encode_directory(stream_type: u32, loc: Location) -> (r: Vec<u8>)
    ensures
        r@ == directory_bytes(stream_type as int, loc),
        r@.len() == DIRECTORY_ENTRY_SIZE,
{
    let mut out: Vec<u8> = Vec::new();
    push_u32(&mut out, stream_type);
    push_u32(&mut out, loc.data_size);
    push_u32(&mut out, loc.rva);
    assert(out@ =~= directory_bytes(stream_type as int, loc));
    out
}

/// Encodes a thread record.
pub fn encode_thread(tid: u32, stack_start: u64, stack: Location, context: Location) -> (r: Vec<u8>)
    ensures
        r@ == thread_bytes(tid as int, stack_start as int, stack, context),
        r@.len() == THREAD_RECORD_SIZE,
{
    let mut out: Vec<u8> = Vec::new();
    push_u32(&mut out, tid);
    push_u32(&mut out, 0);
    push_u32(&mut out, 0);
    push_u32(&mut out, 0);
    push_u64(&mut out, 0);
    push_u64(&mut out, stack_start);
    push_u32(&mut out, stack.data_size);
    push_u32(&mut out, stack.rva);
    push_u32(&mut out, context.data_size);
    push_u32(&mut out, context.rva);
    assert(out@ =~= thread_bytes(tid as int, stack_start as int, stack, context));
    out
}

/// Encodes a module record.
pub fn encode_module(base: u64, size: u32, name_rva: u32, cv: Location) -> (r: Vec<u8>)
    ensures
        r@ == module_bytes(base as int, size as int, name_rva as int, cv),
        r@.len() == MODULE_RECORD_SIZE,
{
    let mut out: Vec<u8> = Vec::new();
    push_u64(&mut out, base);
    push_u32(&mut out, size);
    push_u32(&mut out, 0);
    push_u32(&mut out, 0);
    push_u32(&mut out, name_rva);
    push_u32(&mut out, cv.data_size);
    push_u32(&mut out, cv.rva);
    assert(out@ =~= module_bytes(base as int, size as int, name_rva as int, cv));
    out
}

/// Reading back the little-endian bytes of a 32-bit value gives the value.
pub proof fn lemma_u32_le_roundtrip(s: Seq<u8>, o: int, v: int)
    requires
        0 <= v < 4294967296,
        0 <= o,
        o + 4 <= s.len(),
        s.subrange(o, o + 4) == u32_le(v),
    ensures
        le32(s, o) == v,
{
    assert(s[o] == s.subrange(o, o + 4)[0]);
    assert(s[o + 1] == s.subrange(o, o + 4)[1]);
    assert(s[o + 2] == s.subrange(o, o + 4)[2]);
    assert(s[o + 3] == s.subrange(o, o + 4)[3]);
}

/// The smallest mapping listed as a module.
pub const MIN_MODULE_SIZE: usize = 4096;

/// Holds when a mapping is listed as a module: it has a file name, starts at
/// the file's beginning, is executable, and is large enough to identify.
pub open spec fn module_mapping(m: MappingInfo) -> bool {
    m.name@.len() > 0 && m.offset == 0 && m.has_exec && m.size >= MIN_MODULE_SIZE
}

/// Decides whether a mapping is listed as a module.
pub fn should_include(m: &MappingInfo) -> (r: bool)
    ensures
        r == module_mapping(*m),
{
    !m.name.is_empty() && m.offset == 0 && m.has_exec && m.size >= MIN_MODULE_SIZE
}

/// How a dump is made.
pub struct MinidumpSettings {
    pub skip_stacks_if_mapping_is_unreferenced: bool,
    /// The size the dump should stay under, if any.
    pub size_limit: Option<u64>,
    /// Whether stack copies are sanitized for privacy.
    pub sanitize_stacks: bool,
}

/// A captured thread, as plain values.
pub struct ThreadCapture {
    pub tid: u32,
    pub stack_pointer: u64,
    /// The address the stack copy starts at.
    pub stack_start: u64,
    pub stack: Vec<u8>,
    /// The encoded processor context.
    pub context: Vec<u8>,
}

/// A module to list, as plain values.
pub struct ModuleCapture {
    pub base: u64,
    pub size: u32,
    pub name: Vec<u8>,
    pub identifier: Vec<u8>,
}

/// A block of the process's memory stored in the dump.
#[derive(Debug, Clone, Copy, PartialEq, Eq, Structural)]
pub struct MemoryDescriptor {
    pub start_of_memory_range: u64,
    pub memory: Location,
}

/// The bytes a thread adds to a dump besides its record: stack and context.
pub open spec fn thread_data(t: ThreadCapture) -> int {
    (t.stack@.len() + t.context@.len()) as int
}

/// The bytes a module adds to a dump besides its record: its name and
/// identifier, each after a 32-bit word.
pub open spec fn module_data(m: ModuleCapture) -> int {
    (8 + m.name@.len() + m.identifier@.len()) as int
}

/// The total of `thread_data` over `ts`.
pub open spec fn threads_data(ts: Seq<ThreadCapture>) -> int
    decreases ts.len(),
{
    if ts.len() == 0 { 0 } else { threads_data(ts.drop_last()) + thread_data(ts.last()) }
}

/// The total of `module_data` over `ms`.
pub open spec fn modules_data(ms: Seq<ModuleCapture>) -> int
    decreases ms.len(),
{
    if ms.len() == 0 { 0 } else { modules_data(ms.drop_last()) + module_data(ms.last()) }
}

/// An upper bound on the bytes the thread list stream adds to a file that
/// grows by pages of `ps` bytes.
pub open spec fn thread_list_bound(ts: Seq<ThreadCapture>, ps: int) -> int {
    4 + THREAD_RECORD_SIZE * ts.len() + ps + threads_data(ts) + 2 * ts.len() * ps
}

/// An upper bound on the bytes the module list stream adds to a file that
/// grows by pages of `ps` bytes.
pub open spec fn module_list_bound(ms: Seq<ModuleCapture>, ps: int) -> int {
    4 + MODULE_RECORD_SIZE * ms.len() + ps + modules_data(ms) + 2 * ms.len() * ps
}

/// An upper bound on the size of a whole dump.
pub open spec fn dump_bound(ts: Seq<ThreadCapture>, ms: Seq<ModuleCapture>, ip_len: int, ps: int) -> int {
    HEADER_SIZE + ps + 2 * DIRECTORY_ENTRY_SIZE + ps + thread_list_bound(ts, ps) + ip_len + ps + module_list_bound(ms, ps)
}

/// The bytes of code kept around the crashing instruction.
pub const IP_MEMORY_SIZE: u64 = 256;

/// The range of code kept around instruction pointer `ip`, inside the
/// mapping `[start, start + size)` that holds it: up to half of
/// `IP_MEMORY_SIZE` on each side, as an address and a length.
pub open spec fn ip_range(ip: int, start: int, size: int) -> (int, int) {
    let lo = if ip - 128 > start { ip - 128 } else { start };
    let hi = if ip + 128 < start + size { ip + 128 } else { start + size };
    (lo, hi - lo)
}

/// Finds the range of code kept around the crashing instruction pointer.
pub fn ip_memory_range(ip: u64, start: u64, size: u64) -> (r: (u64, u64))
    requires
        start <= ip,
        ip - start < size,
        start + size <= u64::MAX,
    ensures
        r.0 == ip_range(ip as int, start as int, size as int).0,
        r.1 == ip_range(ip as int, start as int, size as int).1,
        r.1 <= IP_MEMORY_SIZE,
{
    let lo = if ip >= 128 && ip - 128 > start { ip - 128 } else { start };
    let hi = if size >= 128 && ip - start < size - 128 { ip + 128 } else { start + size };
    (lo, hi - lo)
}

/// The length of the code block kept around the crashing instruction.
pub open spec fn ip_len(ip: Option<(u64, Vec<u8>)>) -> int {
    match ip {
        Some((_, b)) => b@.len() as int,
        None => 0,
    }
}

proof fn lemma_threads_data_prefix(ts: Seq<ThreadCapture>, i: int)
    requires
        0 <= i < ts.len(),
    ensures
        threads_data(ts.subrange(0, i + 1)) == threads_data(ts.subrange(0, i)) + thread_data(ts[i]),
        threads_data(ts.subrange(0, i + 1)) <= threads_data(ts),
    decreases ts.len() - i,
{
    assert(ts.subrange(0, i + 1).drop_last() == ts.subrange(0, i));
    lemma_threads_data_mono(ts, i + 1);
}

proof fn lemma_threads_data_mono(ts: Seq<ThreadCapture>, i: int)
    requires
        0 <= i <= ts.len(),
    ensures
        threads_data(ts.subrange(0, i)) <= threads_data(ts),
        threads_data(ts.subrange(0, i)) >= 0,
    decreases ts.len() - i,
{
    if i < ts.len() {
        lemma_threads_data_mono(ts, i + 1);
        assert(ts.subrange(0, i + 1).drop_last() == ts.subrange(0, i));
        lemma_threads_data_nonneg(ts.subrange(0, i));
    } else {
        assert(ts.subrange(0, i) == ts);
        lemma_threads_data_nonneg(ts);
    }
}

proof fn lemma_threads_data_nonneg(ts: Seq<ThreadCapture>)
    ensures
        threads_data(ts) >= 0,
    decreases ts.len(),
{
    if ts.len() > 0 {
        lemma_threads_data_nonneg(ts.drop_last());
    }
}

proof fn lemma_modules_data_prefix(ms: Seq<ModuleCapture>, i: int)
    requires
        0 <= i < ms.len(),
    ensures
        modules_data(ms.subrange(0, i + 1)) == modules_data(ms.subrange(0, i)) + module_data(ms[i]),
        modules_data(ms.subrange(0, i + 1)) <= modules_data(ms),
    decreases ms.len() - i,
{
    assert(ms.subrange(0, i + 1).drop_last() == ms.subrange(0, i));
    lemma_modules_data_mono(ms, i + 1);
}

proof fn lemma_modules_data_mono(ms: Seq<ModuleCapture>, i: int)
    requires
        0 <= i <= ms.len(),
    ensures
        modules_data(ms.subrange(0, i)) <= modules_data(ms),
        modules_data(ms.subrange(0, i)) >= 0,
    decreases ms.len() - i,
{
    if i < ms.len() {
        lemma_modules_data_mono(ms, i + 1);
        assert(ms.subrange(0, i + 1).drop_last() == ms.subrange(0, i));
        lemma_modules_data_nonneg(ms.subrange(0, i));
    } else {
        assert(ms.subrange(0, i) == ms);
        lemma_modules_data_nonneg(ms);
    }
}

proof fn lemma_modules_data_nonneg(ms: Seq<ModuleCapture>)
    ensures
        modules_data(ms) >= 0,
    decreases ms.len(),
{
    if ms.len() > 0 {
        lemma_modules_data_nonneg(ms.drop_last());
    }
}

/// The stack length kept for threads past the base count: `None` when no
/// limit is set or the estimate stays under it.
pub open spec fn extra_stack_len(limit: Option<u64>, position: int, num_threads: int) -> Option<u64> {
    match limit {
        None => None,
        Some(l) => if position + num_threads * LIMIT_AVG_STACK_LEN + LIMIT_FUDGE_FACTOR > l {
            Some(MAX_EXTRA_THREAD_STACK)
        } else {
            None
        },
    }
}

/// Decides whether stacks of extra threads are cut short, from the size limit,
/// the bytes written so far and the thread count.
pub fn extra_thread_stack_len(limit: Option<u64>, position: u64, num_threads: u64) -> (r: Option<u64>)
    ensures
        r == extra_stack_len(limit, position as int, num_threads as int),
{
    match limit {
        None => None,
        Some(l) => {
            let est = position as u128 + num_threads as u128 * LIMIT_AVG_STACK_LEN as u128 + LIMIT_FUDGE_FACTOR as u128;
            if est > l as u128 { Some(MAX_EXTRA_THREAD_STACK) } else { None }
        },
    }
}

/// The part of a stack copy kept when it is cut to `max_len` bytes: the
/// chunk, counted in `max_len` strides from the copy's start, that holds the
/// stack pointer (the first chunk when the pointer lies at or below it, the
/// last when it lies past the copy), cut at the copy's end.
pub open spec fn kept_stack(start: int, len: int, sp: int, max_len: int) -> (int, int) {
    if len <= max_len || max_len == 0 {
        (0, len)
    } else {
        let k0 = if sp - start <= max_len { 0 } else { (sp - start - 1) / max_len };
        let last = (len - 1) / max_len;
        let k = if k0 > last { last } else { k0 };
        let off = k * max_len;
        let n = if len - off < max_len { len - off } else { max_len };
        (off, n)
    }
}

/// Finds the part of a stack copy kept when it is cut to `max_len` bytes, as
/// an offset and a length inside the copy.
pub fn limit_stack(start: u64, len: u64, sp: u64, max_len: u64) -> (r: (u64, u64))
    ensures
        r.0 == kept_stack(start as int, len as int, sp as int, max_len as int).0,
        r.1 == kept_stack(start as int, len as int, sp as int, max_len as int).1,
        r.0 + r.1 <= len,
{
    if len <= max_len || max_len == 0 {
        return (0, len);
    }
    let k0: u64 = if sp <= start || sp - start <= max_len { 0 } else { (sp - start - 1) / max_len };
    let last = (len - 1) / max_len;
    let k = if k0 > last { last } else { k0 };
    proof {
        assert(k * max_len <= len - 1) by (nonlinear_arith)
            requires k <= last, last == ((len - 1) as int) / (max_len as int), max_len > 0, len >= 1;
    }
    let off = k * max_len;
    let n = if len - off < max_len { len - off } else { max_len };
    (off, n)
}


/// Copies `s[lo..hi]`.
fn slice_copy(s: &[u8], lo: usize, hi: usize) -> (r: Vec<u8>)
    requires
        lo <= hi <= s@.len(),
    ensures
        r@ == s@.subrange(lo as int, hi as int),
{
    let mut out: Vec<u8> = Vec::new();
    let mut i: usize = lo;
    while i < hi
        invariant
            lo <= i <= hi <= s@.len(),
            out@ == s@.subrange(lo as int, i as int),
        decreases hi - i,
    {
        out.push(s[i]);
        i = i + 1;
    }
    out
}

/// Holds when the image `img` still holds, before `keep`, what `orig` held.
pub open spec fn keeps_prefix(img: Seq<u8>, orig: Seq<u8>, keep: int) -> bool {
    keep <= orig.len() && keep <= img.len() && img.subrange(0, keep) == orig.subrange(0, keep)
}

/// Holds when the image `img` holds the bytes `b` at offset `at`.
pub open spec fn holds_at(img: Seq<u8>, at: int, b: Seq<u8>) -> bool {
    0 <= at && at + b.len() <= img.len() && img.subrange(at, at + b.len()) == b
}

/// Holds when `new` agrees with `old` on every byte before `p` outside `[lo, hi)`.
pub open spec fn same_below_except(new: Seq<u8>, old: Seq<u8>, p: int, lo: int, hi: int) -> bool {
    p <= old.len() && p <= new.len() && forall|k: int| 0 <= k < p && !(lo <= k < hi) ==> #[trigger] new[k] == old[k]
}

proof fn lemma_holds_kept(new: Seq<u8>, old: Seq<u8>, p: int, lo: int, hi: int, at: int, b: Seq<u8>)
    requires
        same_below_except(new, old, p, lo, hi),
        holds_at(old, at, b),
        at + b.len() <= p,
        at + b.len() <= lo || hi <= at,
    ensures
        holds_at(new, at, b),
{
    assert forall|k: int| 0 <= k < b.len() implies new.subrange(at, at + b.len())[k] == b[k] by {
        assert(old.subrange(at, at + b.len())[k] == b[k]);
        assert(new[at + k] == old[at + k]);
    }
    assert(new.subrange(at, at + b.len()) =~= b);
}

proof fn lemma_keeps_to_same(new: Seq<u8>, old: Seq<u8>, q: int, p: int, lo: int, hi: int)
    requires
        keeps_prefix(new, old, q),
        0 <= p <= q,
    ensures
        same_below_except(new, old, p, lo, hi),
{
    assert forall|k: int| 0 <= k < p && !(lo <= k < hi) implies #[trigger] new[k] == old[k] by {
        assert(new.subrange(0, q)[k] == old.subrange(0, q)[k]);
    }
}

proof fn lemma_same_trans(c: Seq<u8>, b: Seq<u8>, a: Seq<u8>, p: int, lo: int, hi: int)
    requires
        same_below_except(c, b, p, lo, hi),
        same_below_except(b, a, p, lo, hi),
    ensures
        same_below_except(c, a, p, lo, hi),
{
    assert forall|k: int| 0 <= k < p && !(lo <= k < hi) implies #[trigger] c[k] == a[k] by {
        assert(c[k] == b[k]);
    }
}

proof fn lemma_overwrite_same(s: Seq<u8>, at: int, w: Seq<u8>, p: int)
    requires
        0 <= at,
        at + w.len() <= s.len(),
        p <= s.len(),
    ensures
        same_below_except(overwrite(s, at, w), s, p, at, at + w.len()),
{
}

/// Reserves and writes a block of bytes after everything reserved so far.
fn write_block(fw: &mut FileWriter, bytes: &[u8]) -> (r: Result<Location, WriterError>)
    requires
        old(fw).wf(),
    ensures
        final(fw).wf(),
        final(fw).spec_page_size() == old(fw).spec_page_size(),
        old(fw)@.len() + bytes@.len() + old(fw).spec_page_size() <= MAX_FILE_LEN ==> r is Ok,
        r is Ok ==> final(fw)@.len() <= old(fw)@.len() + bytes@.len() + old(fw).spec_page_size(),
        r is Ok ==> r->Ok_0.rva == old(fw).spec_position() && r->Ok_0.data_size == bytes@.len(),
        r is Ok ==> holds_at(final(fw)@, r->Ok_0.rva as int, bytes@),
        r is Ok ==> final(fw).spec_position() == old(fw).spec_position() + bytes@.len(),
        final(fw).spec_position() >= old(fw).spec_position(),
        final(fw)@.len() >= final(fw).spec_position(),
        keeps_prefix(final(fw)@, old(fw)@, old(fw).spec_position()),
{
    let p0 = fw.position();
    let ghost before = fw@;
    let len = bytes.len() as u64;
    if bytes.len() as u128 > MAX_FILE_LEN as u128 {
        return Err(WriterError::TooLarge);
    }
    proof {
        lemma_grown_len_bound(fw, len as int);
    }
    let item = match fw.reserve(len) {
        Ok(i) => i,
        Err(e) => return Err(e),
    };
    let ghost mid = fw@;
    proof {
        assert(mid.subrange(0, p0 as int) == before.subrange(0, p0 as int)) by {
            assert(mid.subrange(0, before.len() as int) == before);
            assert(mid.subrange(0, p0 as int) == mid.subrange(0, before.len() as int).subrange(0, p0 as int));
        }
    }
    match item.write(bytes, fw) {
        Ok(()) => {},
        Err(e) => return Err(e),
    }
    proof {
        lemma_overwrite_keeps_prefix(mid, p0 as int, bytes@, p0 as int);
        lemma_overwrite_lands(mid, p0 as int, bytes@);
    }
    Ok(item.location())
}


/// Keeping a prefix keeps every shorter one.
proof fn lemma_keeps_prefix_shorter(c: Seq<u8>, b: Seq<u8>, k1: int, k2: int)
    requires
        keeps_prefix(c, b, k1),
        0 <= k2 <= k1,
    ensures
        keeps_prefix(c, b, k2),
{
    assert(c.subrange(0, k2) == c.subrange(0, k1).subrange(0, k2));
    assert(b.subrange(0, k2) == b.subrange(0, k1).subrange(0, k2));
}

/// Earlier images agree before `k` with later ones that keep their prefix.
proof fn lemma_keeps_prefix_trans(c: Seq<u8>, b: Seq<u8>, a: Seq<u8>, k: int)
    requires
        keeps_prefix(c, b, k),
        keeps_prefix(b, a, k),
    ensures
        keeps_prefix(c, a, k),
{
}

/// The part of thread `t`'s stack copy that is stored, as an offset and a
/// length: all of it, unless stacks are being cut (`extra` is the cut
/// length), `t` is past the first `LIMIT_BASE_THREAD_COUNT` threads and is
/// not the crashing thread.
pub open spec fn kept_part(t: ThreadCapture, index: int, crash_tid: u32, extra: Option<u64>) -> (int, int) {
    match extra {
        Some(m) => if index >= LIMIT_BASE_THREAD_COUNT && t.tid != crash_tid {
            kept_stack(t.stack_start as int, t.stack@.len() as int, t.stack_pointer as int, m as int)
        } else {
            (0, t.stack@.len() as int)
        },
        None => (0, t.stack@.len() as int),
    }
}

/// The address where the stored part of a stack copy starts.
pub open spec fn stored_start(t: ThreadCapture, off: int) -> int {
    if t.stack_start + off <= u64::MAX { t.stack_start + off } else { t.stack_start as int }
}

/// Where the stack pointer lies in a stored stack of `len` bytes at `start`,
/// clamped to the stack.
pub open spec fn sp_offset(sp: int, start: int, len: int) -> int {
    if sp <= start { 0 } else if sp - start > len { len } else { sp - start }
}

/// The stack bytes stored for thread `t`: its kept part, sanitized when asked.
pub open spec fn stored_stack(
    t: ThreadCapture,
    index: int,
    crash_tid: u32,
    extra: Option<u64>,
    sanitize: bool,
    ms: Seq<MappingInfo>,
) -> Seq<u8> {
    let (off, n) = kept_part(t, index, crash_tid, extra);
    let raw = t.stack@.subrange(off, off + n);
    if sanitize {
        sanitized(raw, sp_offset(t.stack_pointer as int, stored_start(t, off), n), ms)
    } else {
        raw
    }
}

/// Holds when `img` holds thread `t`'s record at `rec_at`, pointing at its
/// stored stack (described by `stack`) and its context (at `ctx`).
pub open spec fn thread_stored(
    img: Seq<u8>,
    rec_at: int,
    t: ThreadCapture,
    index: int,
    crash_tid: u32,
    extra: Option<u64>,
    sanitize: bool,
    ms: Seq<MappingInfo>,
    stack: MemoryDescriptor,
    ctx: Location,
) -> bool {
    &&& stack.start_of_memory_range == stored_start(t, kept_part(t, index, crash_tid, extra).0)
    &&& stack.memory.data_size == kept_part(t, index, crash_tid, extra).1
    &&& ctx.data_size == t.context@.len()
    &&& holds_at(img, rec_at, thread_bytes(t.tid as int, stack.start_of_memory_range as int, stack.memory, ctx))
    &&& holds_at(img, stack.memory.rva as int, stored_stack(t, index, crash_tid, extra, sanitize, ms))
    &&& holds_at(img, ctx.rva as int, t.context@)
}

/// Holds when both locations lie in `[lo, hi)`.
pub open spec fn within(a: Location, b: Location, lo: int, hi: int) -> bool {
    lo <= a.rva && a.rva + a.data_size <= hi && lo <= b.rva && b.rva + b.data_size <= hi
}

/// The start address and bytes of the part of `t`'s stack that is stored.
fn stack_to_store(
    t: &ThreadCapture,
    index: usize,
    crash_tid: u32,
    extra: Option<u64>,
    settings: &MinidumpSettings,
    mappings: &Vec<MappingInfo>,
) -> (r: (u64, Vec<u8>))
    ensures
        r.0 == stored_start(*t, kept_part(*t, index as int, crash_tid, extra).0),
        r.1@ == stored_stack(*t, index as int, crash_tid, extra, settings.sanitize_stacks, mappings@),
        r.1@.len() == kept_part(*t, index as int, crash_tid, extra).1,
        r.1@.len() <= t.stack@.len(),
{
    let len = t.stack.len() as u64;
    let (off, keep_len) = match extra {
        Some(max_len) if index >= LIMIT_BASE_THREAD_COUNT && t.tid != crash_tid => limit_stack(
            t.stack_start,
            len,
            t.stack_pointer,
            max_len,
        ),
        _ => (0, len),
    };
    let mut stack = slice_copy(t.stack.as_slice(), off as usize, (off + keep_len) as usize);
    let start = if t.stack_start as u128 + off as u128 <= u64::MAX as u128 { t.stack_start + off } else { t.stack_start };
    if settings.sanitize_stacks {
        let sp_off: usize = if t.stack_pointer <= start {
            0
        } else if t.stack_pointer - start > stack.len() as u64 {
            stack.len()
        } else {
            (t.stack_pointer - start) as usize
        };
        sanitize_stack(&mut stack, sp_off, mappings);
    }
    (start, stack)
}

/// Stores one thread's stack and context after everything reserved so far
/// and writes its record at `index` in the thread list.
#[verifier::rlimit(60)]
fn write_one_thread(
    fw: &mut FileWriter,
    tlist: &MDHeaderArray,
    index: usize,
    t: &ThreadCapture,
    crash_tid: u32,
    extra: Option<u64>,
    settings: &MinidumpSettings,
    mappings: &Vec<MappingInfo>,
) -> (r: Result<(MemoryDescriptor, Location), WriterError>)
    requires
        old(fw).wf(),
        tlist.header_size == 4,
        tlist.elem_size == THREAD_RECORD_SIZE,
        4 + THREAD_RECORD_SIZE * index + THREAD_RECORD_SIZE <= tlist.reservation.size,
        tlist.reservation.pos + tlist.reservation.size <= old(fw).spec_position(),
    ensures
        final(fw).wf(),
        final(fw).spec_position() >= old(fw).spec_position(),
        keeps_prefix(final(fw)@, old(fw)@, tlist.reservation.pos + 4),
        final(fw).spec_page_size() == old(fw).spec_page_size(),
        old(fw)@.len() + thread_data(*t) + 2 * old(fw).spec_page_size() <= MAX_FILE_LEN ==> r is Ok,
        r is Ok ==> final(fw)@.len() <= old(fw)@.len() + thread_data(*t) + 2 * old(fw).spec_page_size(),
        r is Ok ==> ({
            let rec_at = tlist.reservation.pos + 4 + THREAD_RECORD_SIZE * index;
            &&& thread_stored(final(fw)@, rec_at, *t, index as int, crash_tid, extra, settings.sanitize_stacks, mappings@, r->Ok_0.0, r->Ok_0.1)
            &&& within(r->Ok_0.0.memory, r->Ok_0.1, old(fw).spec_position(), final(fw).spec_position())
            &&& same_below_except(final(fw)@, old(fw)@, old(fw).spec_position(), rec_at, rec_at + THREAD_RECORD_SIZE)
        }),
{
    let p0 = tlist.reservation.pos;
    let (start, stack) = stack_to_store(t, index, crash_tid, extra, settings, mappings);
    assert(stack@ == stored_stack(*t, index as int, crash_tid, extra, settings.sanitize_stacks, mappings@));
    let ghost f0 = fw@;
    let ghost q0 = fw.spec_position();
    let stack_loc = match write_block(fw, stack.as_slice()) {
        Ok(l) => l,
        Err(e) => {
            proof { lemma_keeps_prefix_shorter(fw@, f0, q0, p0 + 4); }
            return Err(e);
        },
    };
    proof { lemma_keeps_prefix_shorter(fw@, f0, q0, p0 + 4); }
    let ghost fa = fw@;
    let ghost qa = fw.spec_position();
    let ctx_loc = match write_block(fw, t.context.as_slice()) {
        Ok(l) => l,
        Err(e) => {
            proof {
                lemma_keeps_prefix_shorter(fw@, fa, qa, p0 + 4);
                lemma_keeps_prefix_trans(fw@, fa, f0, p0 + 4);
            }
            return Err(e);
        },
    };
    proof {
        lemma_keeps_prefix_shorter(fw@, fa, qa, p0 + 4);
        lemma_keeps_prefix_trans(fw@, fa, f0, p0 + 4);
    }
    let md = MemoryDescriptor { start_of_memory_range: start, memory: stack_loc };
    let rec = encode_thread(t.tid, start, stack_loc, ctx_loc);
    let ghost f1 = fw@;
    let ghost at = p0 + 4 + THREAD_RECORD_SIZE * index;
    proof {
        assert(4 + THREAD_RECORD_SIZE * index <= MAX_FILE_LEN);
        lemma_keeps_to_same(f1, fa, qa, qa, 0, 0);
        lemma_holds_kept(f1, fa, qa, 0, 0, stack_loc.rva as int, stack@);
    }
    match tlist.write(index as u64, rec.as_slice(), fw) {
        Ok(()) => {},
        Err(e) => return Err(e),
    }
    proof {
        lemma_overwrite_keeps_prefix(f1, at, rec@, p0 + 4);
        lemma_overwrite_lands(f1, at, rec@);
        lemma_overwrite_same(f1, at, rec@, f1.len() as int);
        lemma_holds_kept(fw@, f1, f1.len() as int, at, at + 48, stack_loc.rva as int, stack@);
        lemma_holds_kept(fw@, f1, f1.len() as int, at, at + 48, ctx_loc.rva as int, t.context@);
        lemma_keeps_to_same(fa, f0, q0, q0, at, at + 48);
        lemma_keeps_to_same(f1, fa, qa, q0, at, at + 48);
        lemma_same_trans(f1, fa, f0, q0, at, at + 48);
        assert(same_below_except(fw@, f1, q0, at, at + 48));
        lemma_same_trans(fw@, f1, f0, q0, at, at + 48);
    }
    Ok((md, ctx_loc))
}

/// Where the thread list and what it points at lie in the file.
pub struct ThreadListLayout {
    pub location: Location,
    /// The stack memory stored for each thread, in thread order; the
    /// non-empty ones are the memory blocks of the dump.
    pub stacks: Vec<MemoryDescriptor>,
    /// Where each thread's context lies.
    pub contexts: Vec<Location>,
}

/// Holds when `img` holds every thread's record, stored stack and context as
/// `l` describes them.
pub open spec fn threads_stored(
    img: Seq<u8>,
    l: ThreadListLayout,
    ts: Seq<ThreadCapture>,
    crash_tid: u32,
    extra: Option<u64>,
    sanitize: bool,
    ms: Seq<MappingInfo>,
) -> bool {
    &&& l.stacks@.len() == ts.len()
    &&& l.contexts@.len() == ts.len()
    &&& forall|i: int| #![trigger l.stacks@[i]] 0 <= i < ts.len() ==> thread_stored(
        img,
        l.location.rva + 4 + THREAD_RECORD_SIZE * i,
        ts[i],
        i,
        crash_tid,
        extra,
        sanitize,
        ms,
        l.stacks@[i],
        l.contexts@[i],
    )
}

/// Holds when every stack and context of `l` lies in `[lo, hi)`.
pub open spec fn threads_within(l: ThreadListLayout, lo: int, hi: int) -> bool {
    forall|i: int| #![trigger l.stacks@[i]] 0 <= i < l.stacks@.len() ==> within(l.stacks@[i].memory, l.contexts@[i], lo, hi)
}

/// Records, stacks and contexts of a thread list survive writes elsewhere.
proof fn lemma_threads_kept(
    new: Seq<u8>,
    old: Seq<u8>,
    p: int,
    lo: int,
    hi: int,
    l: ThreadListLayout,
    ts: Seq<ThreadCapture>,
    crash_tid: u32,
    extra: Option<u64>,
    sanitize: bool,
    ms: Seq<MappingInfo>,
)
    requires
        same_below_except(new, old, p, lo, hi),
        threads_stored(old, l, ts, crash_tid, extra, sanitize, ms),
        threads_within(l, l.location.rva + 4 + THREAD_RECORD_SIZE * ts.len(), p),
        hi <= l.location.rva,
        l.location.rva + 4 + THREAD_RECORD_SIZE * ts.len() <= p,
    ensures
        threads_stored(new, l, ts, crash_tid, extra, sanitize, ms),
{
    assert forall|i: int| #![trigger l.stacks@[i]] 0 <= i < ts.len() implies thread_stored(
        new,
        l.location.rva + 4 + THREAD_RECORD_SIZE * i,
        ts[i],
        i,
        crash_tid,
        extra,
        sanitize,
        ms,
        l.stacks@[i],
        l.contexts@[i],
    ) by {
        let rec_at = l.location.rva + 4 + THREAD_RECORD_SIZE * i;
        let t = ts[i];
        let st = l.stacks@[i];
        let cx = l.contexts@[i];
        assert(rec_at + THREAD_RECORD_SIZE <= l.location.rva + 4 + THREAD_RECORD_SIZE * ts.len()) by (nonlinear_arith)
            requires i < ts.len(), rec_at == l.location.rva + 4 + THREAD_RECORD_SIZE * i;
        lemma_holds_kept(new, old, p, lo, hi, rec_at, thread_bytes(t.tid as int, st.start_of_memory_range as int, st.memory, cx));
        lemma_holds_kept(new, old, p, lo, hi, st.memory.rva as int, stored_stack(t, i, crash_tid, extra, sanitize, ms));
        lemma_holds_kept(new, old, p, lo, hi, cx.rva as int, t.context@);
    }
}

/// Holds when the first `i` threads are stored as `stacks` and `contexts`
/// describe, with records from `p0 + 4` and the rest in `[base, top)`.
pub open spec fn prefix_stored(
    img: Seq<u8>,
    p0: int,
    ts: Seq<ThreadCapture>,
    i: int,
    crash_tid: u32,
    extra: Option<u64>,
    sanitize: bool,
    ms: Seq<MappingInfo>,
    stacks: Seq<MemoryDescriptor>,
    contexts: Seq<Location>,
    base: int,
    top: int,
) -> bool {
    stacks.len() == i && contexts.len() == i && forall|j: int| #![trigger stacks[j]] 0 <= j < i ==> thread_stored(
        img,
        p0 + 4 + THREAD_RECORD_SIZE * j,
        ts[j],
        j,
        crash_tid,
        extra,
        sanitize,
        ms,
        stacks[j],
        contexts[j],
    ) && within(stacks[j].memory, contexts[j], base, top)
}

proof fn lemma_prefix_kept(
    new: Seq<u8>,
    old: Seq<u8>,
    q0: int,
    p0: int,
    n: int,
    ts: Seq<ThreadCapture>,
    i: int,
    crash_tid: u32,
    extra: Option<u64>,
    sanitize: bool,
    ms: Seq<MappingInfo>,
    stacks: Seq<MemoryDescriptor>,
    contexts: Seq<Location>,
    top: int,
)
    requires
        0 <= i < n,
        0 <= p0,
        q0 <= top,
        prefix_stored(old, p0, ts, i, crash_tid, extra, sanitize, ms, stacks, contexts, p0 + 4 + THREAD_RECORD_SIZE * n, q0),
        same_below_except(new, old, q0, p0 + 4 + THREAD_RECORD_SIZE * i, p0 + 4 + THREAD_RECORD_SIZE * i + THREAD_RECORD_SIZE),
    ensures
        prefix_stored(new, p0, ts, i, crash_tid, extra, sanitize, ms, stacks, contexts, p0 + 4 + THREAD_RECORD_SIZE * n, top),
{
    let at = p0 + 4 + THREAD_RECORD_SIZE * i;
    let base = p0 + 4 + THREAD_RECORD_SIZE * n;
    assert(at + THREAD_RECORD_SIZE <= base) by (nonlinear_arith)
        requires i < n, at == p0 + 4 + THREAD_RECORD_SIZE * i, base == p0 + 4 + THREAD_RECORD_SIZE * n;
    assert forall|j: int| #![trigger stacks[j]] 0 <= j < i implies thread_stored(
        new,
        p0 + 4 + THREAD_RECORD_SIZE * j,
        ts[j],
        j,
        crash_tid,
        extra,
        sanitize,
        ms,
        stacks[j],
        contexts[j],
    ) && within(stacks[j].memory, contexts[j], base, top) by {
        let rj = p0 + 4 + THREAD_RECORD_SIZE * j;
        let t = ts[j];
        let st = stacks[j];
        let c = contexts[j];
        assert(rj + THREAD_RECORD_SIZE <= at) by (nonlinear_arith)
            requires j < i, rj == p0 + 4 + THREAD_RECORD_SIZE * j, at == p0 + 4 + THREAD_RECORD_SIZE * i;
        lemma_holds_kept(new, old, q0, at, at + THREAD_RECORD_SIZE, rj, thread_bytes(t.tid as int, st.start_of_memory_range as int, st.memory, c));
        lemma_holds_kept(new, old, q0, at, at + THREAD_RECORD_SIZE, st.memory.rva as int, stored_stack(t, j, crash_tid, extra, sanitize, ms));
        lemma_holds_kept(new, old, q0, at, at + THREAD_RECORD_SIZE, c.rva as int, t.context@);
    }
}

proof fn lemma_prefix_push(
    img: Seq<u8>,
    p0: int,
    ts: Seq<ThreadCapture>,
    i: int,
    crash_tid: u32,
    extra: Option<u64>,
    sanitize: bool,
    ms: Seq<MappingInfo>,
    stacks: Seq<MemoryDescriptor>,
    contexts: Seq<Location>,
    base: int,
    top: int,
    st: MemoryDescriptor,
    c: Location,
)
    requires
        prefix_stored(img, p0, ts, i, crash_tid, extra, sanitize, ms, stacks, contexts, base, top),
        thread_stored(img, p0 + 4 + THREAD_RECORD_SIZE * i, ts[i], i, crash_tid, extra, sanitize, ms, st, c),
        within(st.memory, c, base, top),
    ensures
        prefix_stored(img, p0, ts, i + 1, crash_tid, extra, sanitize, ms, stacks.push(st), contexts.push(c), base, top),
{
    let s2 = stacks.push(st);
    let c2 = contexts.push(c);
    assert forall|j: int| #![trigger s2[j]] 0 <= j < i + 1 implies thread_stored(
        img,
        p0 + 4 + THREAD_RECORD_SIZE * j,
        ts[j],
        j,
        crash_tid,
        extra,
        sanitize,
        ms,
        s2[j],
        c2[j],
    ) && within(s2[j].memory, c2[j], base, top) by {
        if j < i {
            assert(s2[j] == stacks[j]);
            assert(c2[j] == contexts[j]);
        }
    }
}

/// Writes the thread list stream: the count, then one record per thread with
/// its stack and context stored after the list. Past the first
/// `LIMIT_BASE_THREAD_COUNT` threads, stacks of threads other than the
/// crashing one are cut to `MAX_EXTRA_THREAD_STACK` bytes when the dump would
/// exceed its size limit (`extra_stack_len`); stacks are sanitized when the
/// settings ask. Returns where everything was stored.
pub fn write_thread_list(
    fw: &mut FileWriter,
    threads: &Vec<ThreadCapture>,
    crash_tid: u32,
    settings: &MinidumpSettings,
    mappings: &Vec<MappingInfo>,
) -> (r: Result<ThreadListLayout, WriterError>)
    requires
        old(fw).wf(),
    ensures
        final(fw).wf(),
        keeps_prefix(final(fw)@, old(fw)@, old(fw).spec_position()),
        final(fw).spec_position() >= old(fw).spec_position(),
        final(fw)@.len() >= final(fw).spec_position(),
        final(fw).spec_page_size() == old(fw).spec_page_size(),
        old(fw)@.len() + thread_list_bound(threads@, old(fw).spec_page_size()) <= MAX_FILE_LEN ==> r is Ok,
        r is Ok ==> final(fw)@.len() <= old(fw)@.len() + thread_list_bound(threads@, old(fw).spec_page_size()),
        r is Ok ==> ({
            let l = r->Ok_0;
            let loc = l.location;
            let n = threads@.len();
            let extra = extra_stack_len(settings.size_limit, loc.rva + loc.data_size, n as int);
            &&& loc.rva == old(fw).spec_position()
            &&& loc.data_size == 4 + THREAD_RECORD_SIZE * n
            &&& final(fw).spec_position() >= loc.rva + loc.data_size
            &&& le32(final(fw)@, loc.rva as int) == n
            &&& threads_stored(final(fw)@, l, threads@, crash_tid, extra, settings.sanitize_stacks, mappings@)
            &&& threads_within(l, loc.rva + loc.data_size, final(fw).spec_position())
            &&& forall|i: int| #![trigger l.stacks@[i]] 0 <= i < n && extra is Some && i >= LIMIT_BASE_THREAD_COUNT
                && threads@[i].tid != crash_tid ==> l.stacks@[i].memory.data_size <= MAX_EXTRA_THREAD_STACK
        }),
{
    let n = threads.len();
    let p0 = fw.position();
    let ghost before = fw@;
    let ghost ps = fw.spec_page_size();
    let ghost l0 = fw@.len() as int;
    let ghost cond = l0 + thread_list_bound(threads@, ps) <= MAX_FILE_LEN;
    proof {
        lemma_threads_data_mono(threads@, 0);
        lemma_threads_data_mono(threads@, threads@.len() as int);
        assert(n * ps >= 0) by (nonlinear_arith) requires ps > 0;
    }
    if n as u128 > (MAX_FILE_LEN as u128 - 4) / THREAD_RECORD_SIZE as u128 {
        return Err(WriterError::TooLarge);
    }
    proof {
        lemma_grown_len_bound(fw, 4 + THREAD_RECORD_SIZE * n);
    }
    let tlist = match fw.reserve_header_array(4, THREAD_RECORD_SIZE, n as u64) {
        Ok(t) => t,
        Err(e) => return Err(e),
    };
    let tsize = tlist.reservation.size;
    let mut count: Vec<u8> = Vec::new();
    push_u32(&mut count, n as u32);
    let ghost mid = fw@;
    proof {
        assert(mid.subrange(0, p0 as int) == before.subrange(0, p0 as int)) by {
            assert(mid.subrange(0, p0 as int) == mid.subrange(0, before.len() as int).subrange(0, p0 as int));
        }
    }
    match tlist.write_header(count.as_slice(), fw) {
        Ok(()) => {},
        Err(e) => return Err(e),
    }
    proof {
        lemma_overwrite_keeps_prefix(mid, p0 as int, count@, p0 as int);
        lemma_overwrite_lands(mid, p0 as int, count@);
        assert(mid.subrange(0, p0 as int) == before.subrange(0, p0 as int));
    }
    let extra = extra_thread_stack_len(settings.size_limit, fw.position(), n as u64);
    let location = tlist.location();
    let mut stacks: Vec<MemoryDescriptor> = Vec::new();
    let mut contexts: Vec<Location> = Vec::new();
    let ghost after_count = fw@;
    let ghost l1 = fw@.len() as int;
    let ghost base = p0 + tsize;
    let mut i: usize = 0;
    while i < n
        invariant
            fw.wf(),
            fw.spec_page_size() == ps,
            ps > 0,
            l1 <= l0 + 4 + THREAD_RECORD_SIZE * n + ps,
            fw@.len() <= l1 + threads_data(threads@.subrange(0, i as int)) + 2 * i * ps,
            cond == (l0 + thread_list_bound(threads@, ps) <= MAX_FILE_LEN),
            ps == old(fw).spec_page_size(),
            l0 == old(fw)@.len(),
            n == threads@.len(),
            i <= n,
            tlist.reservation.pos == p0,
            tlist.reservation.size == 4 + THREAD_RECORD_SIZE * n,
            tsize == tlist.reservation.size,
            base == p0 + tsize,
            location.rva == p0,
            location.data_size == tsize,
            tlist.header_size == 4,
            tlist.elem_size == THREAD_RECORD_SIZE,
            p0 + 4 + THREAD_RECORD_SIZE * n <= fw.spec_position(),
            p0 + 4 + THREAD_RECORD_SIZE * n <= MAX_FILE_LEN,
            keeps_prefix(fw@, after_count, p0 + 4),
            keeps_prefix(after_count, before, p0 as int),
            after_count.len() >= p0 + 4,
            before == old(fw)@,
            p0 == old(fw).spec_position(),
            holds_at(fw@, p0 as int, u32_le(n as int)),
            extra == extra_stack_len(settings.size_limit, base, n as int),
            prefix_stored(fw@, p0 as int, threads@, i as int, crash_tid, extra, settings.sanitize_stacks, mappings@, stacks@, contexts@, base, fw.spec_position() as int),
        decreases n - i,
    {
        let ghost f0 = fw@;
        let ghost q0 = fw.spec_position() as int;
        let ghost old_stacks = stacks@;
        let ghost old_contexts = contexts@;
        proof {
            lemma_threads_data_prefix(threads@, i as int);
            assert(2 * (i + 1) * ps == 2 * i * ps + 2 * ps) by (nonlinear_arith);
            assert(2 * (i + 1) * ps <= 2 * n * ps) by (nonlinear_arith) requires i + 1 <= n, ps > 0;
            if cond {
                assert(fw@.len() + thread_data(threads@[i as int]) + 2 * ps <= MAX_FILE_LEN);
            }
            assert(4 + THREAD_RECORD_SIZE * i + THREAD_RECORD_SIZE <= 4 + THREAD_RECORD_SIZE * n) by (nonlinear_arith)
                requires i < n;
        }
        let (md, cx) = match write_one_thread(fw, &tlist, i, &threads[i], crash_tid, extra, settings, mappings) {
            Ok(x) => x,
            Err(e) => {
                proof {
                    lemma_keeps_prefix_trans(fw@, f0, after_count, p0 + 4);
                    lemma_keeps_prefix_shorter(fw@, after_count, p0 + 4, p0 as int);
                    lemma_keeps_prefix_trans(fw@, after_count, before, p0 as int);
                }
                return Err(e);
            },
        };
        proof {
            lemma_keeps_prefix_trans(fw@, f0, after_count, p0 + 4);
            let at = p0 + 4 + THREAD_RECORD_SIZE * i;
            lemma_holds_kept(fw@, f0, q0, at, at + THREAD_RECORD_SIZE, p0 as int, u32_le(n as int));
            lemma_prefix_kept(fw@, f0, q0, p0 as int, n as int, threads@, i as int, crash_tid, extra,
                settings.sanitize_stacks, mappings@, old_stacks, old_contexts, fw.spec_position() as int);
            lemma_prefix_push(fw@, p0 as int, threads@, i as int, crash_tid, extra, settings.sanitize_stacks,
                mappings@, old_stacks, old_contexts, base, fw.spec_position() as int, md, cx);
        }
        stacks.push(md);
        contexts.push(cx);
        i = i + 1;
    }
    let l = ThreadListLayout { location, stacks, contexts };
    proof {
        assert(threads_stored(fw@, l, threads@, crash_tid, extra, settings.sanitize_stacks, mappings@));
        assert(threads_within(l, base, fw.spec_position() as int));
        assert(fw@.subrange(0, p0 as int) == before.subrange(0, p0 as int)) by {
            assert(fw@.subrange(0, p0 as int) == fw@.subrange(0, p0 + 4).subrange(0, p0 as int));
            assert(after_count.subrange(0, p0 as int) == after_count.subrange(0, p0 + 4).subrange(0, p0 as int));
        }
        lemma_u32_le_roundtrip(fw@, p0 as int, n as int);
        assert forall|j: int| #![trigger l.stacks@[j]] 0 <= j < n && extra is Some && j >= LIMIT_BASE_THREAD_COUNT
            && threads@[j].tid != crash_tid implies l.stacks@[j].memory.data_size <= MAX_EXTRA_THREAD_STACK by {
            assert(l.stacks@[j] == stacks@[j]);
        }
    }
    Ok(l)
}


/// The stored name of a module: its length, then its bytes.
pub open spec fn name_bytes(m: ModuleCapture) -> Seq<u8> {
    u32_le(m.name@.len() as int) + m.name@
}

/// The stored identifier record of a module: the ELF signature, then the identifier.
pub open spec fn cv_bytes(m: ModuleCapture) -> Seq<u8> {
    u32_le(CV_SIGNATURE_ELF as int) + m.identifier@
}

/// Holds when `img` holds module `m`'s record at `rec_at`, pointing at its
/// stored name (at `name`) and identifier record (at `cv`).
pub open spec fn module_stored(img: Seq<u8>, rec_at: int, m: ModuleCapture, name: Location, cv: Location) -> bool {
    &&& name.data_size == 4 + m.name@.len()
    &&& cv.data_size == 4 + m.identifier@.len()
    &&& holds_at(img, rec_at, module_bytes(m.base as int, m.size as int, name.rva as int, cv))
    &&& holds_at(img, name.rva as int, name_bytes(m))
    &&& holds_at(img, cv.rva as int, cv_bytes(m))
}

/// Holds when the first `i` modules are stored as `names` and `cvs`
/// describe, with records from `p0 + 4` and the rest in `[base, top)`.
pub open spec fn modules_prefix_stored(
    img: Seq<u8>,
    p0: int,
    ms: Seq<ModuleCapture>,
    i: int,
    names: Seq<Location>,
    cvs: Seq<Location>,
    base: int,
    top: int,
) -> bool {
    names.len() == i && cvs.len() == i && forall|j: int| #![trigger names[j]] 0 <= j < i ==> module_stored(
        img,
        p0 + 4 + MODULE_RECORD_SIZE * j,
        ms[j],
        names[j],
        cvs[j],
    ) && within(names[j], cvs[j], base, top)
}

proof fn lemma_modules_prefix_kept(
    new: Seq<u8>,
    old: Seq<u8>,
    q0: int,
    lo: int,
    hi: int,
    p0: int,
    n: int,
    ms: Seq<ModuleCapture>,
    i: int,
    names: Seq<Location>,
    cvs: Seq<Location>,
    top: int,
)
    requires
        0 <= i <= n,
        0 <= p0,
        q0 <= top,
        modules_prefix_stored(old, p0, ms, i, names, cvs, p0 + 4 + MODULE_RECORD_SIZE * n, q0),
        same_below_except(new, old, q0, lo, hi),
        hi <= p0 || (lo == p0 + 4 + MODULE_RECORD_SIZE * i && hi == lo + MODULE_RECORD_SIZE && i < n),
    ensures
        modules_prefix_stored(new, p0, ms, i, names, cvs, p0 + 4 + MODULE_RECORD_SIZE * n, top),
{
    let base = p0 + 4 + MODULE_RECORD_SIZE * n;
    assert forall|j: int| #![trigger names[j]] 0 <= j < i implies module_stored(
        new,
        p0 + 4 + MODULE_RECORD_SIZE * j,
        ms[j],
        names[j],
        cvs[j],
    ) && within(names[j], cvs[j], base, top) by {
        let rj = p0 + 4 + MODULE_RECORD_SIZE * j;
        let m = ms[j];
        assert(rj + MODULE_RECORD_SIZE <= base) by (nonlinear_arith)
            requires j < i, i <= n, rj == p0 + 4 + MODULE_RECORD_SIZE * j, base == p0 + 4 + MODULE_RECORD_SIZE * n;
        if !(hi <= p0) {
            assert(rj + MODULE_RECORD_SIZE <= lo) by (nonlinear_arith)
                requires j < i, rj == p0 + 4 + MODULE_RECORD_SIZE * j, lo == p0 + 4 + MODULE_RECORD_SIZE * i;
            assert(hi <= base) by (nonlinear_arith)
                requires i < n, hi == p0 + 4 + MODULE_RECORD_SIZE * i + MODULE_RECORD_SIZE, base == p0 + 4 + MODULE_RECORD_SIZE * n;
        }
        lemma_holds_kept(new, old, q0, lo, hi, rj, module_bytes(m.base as int, m.size as int, names[j].rva as int, cvs[j]));
        lemma_holds_kept(new, old, q0, lo, hi, names[j].rva as int, name_bytes(m));
        lemma_holds_kept(new, old, q0, lo, hi, cvs[j].rva as int, cv_bytes(m));
    }
}

proof fn lemma_modules_prefix_push(
    img: Seq<u8>,
    p0: int,
    ms: Seq<ModuleCapture>,
    i: int,
    names: Seq<Location>,
    cvs: Seq<Location>,
    base: int,
    top: int,
    nm: Location,
    cv: Location,
)
    requires
        modules_prefix_stored(img, p0, ms, i, names, cvs, base, top),
        module_stored(img, p0 + 4 + MODULE_RECORD_SIZE * i, ms[i], nm, cv),
        within(nm, cv, base, top),
    ensures
        modules_prefix_stored(img, p0, ms, i + 1, names.push(nm), cvs.push(cv), base, top),
{
    let n2 = names.push(nm);
    let c2 = cvs.push(cv);
    assert forall|j: int| #![trigger n2[j]] 0 <= j < i + 1 implies module_stored(
        img,
        p0 + 4 + MODULE_RECORD_SIZE * j,
        ms[j],
        n2[j],
        c2[j],
    ) && within(n2[j], c2[j], base, top) by {
        if j < i {
            assert(n2[j] == names[j]);
            assert(c2[j] == cvs[j]);
        }
    }
}

/// Stores one module's name (length, then bytes) and identifier record
/// (signature, then identifier) after everything reserved so far and writes
/// its record at `index` in the module list.
#[verifier::rlimit(60)]
fn write_one_module(fw: &mut FileWriter, mlist: &MDHeaderArray, index: usize, m: &ModuleCapture) -> (r: Result<(Location, Location), WriterError>)
    requires
        old(fw).wf(),
        mlist.header_size == 4,
        mlist.elem_size == MODULE_RECORD_SIZE,
        4 + MODULE_RECORD_SIZE * index + MODULE_RECORD_SIZE <= mlist.reservation.size,
        mlist.reservation.pos + mlist.reservation.size <= old(fw).spec_position(),
    ensures
        final(fw).wf(),
        final(fw).spec_position() >= old(fw).spec_position(),
        keeps_prefix(final(fw)@, old(fw)@, mlist.reservation.pos + 4),
        final(fw).spec_page_size() == old(fw).spec_page_size(),
        old(fw)@.len() + module_data(*m) + 2 * old(fw).spec_page_size() <= MAX_FILE_LEN ==> r is Ok,
        r is Ok ==> final(fw)@.len() <= old(fw)@.len() + module_data(*m) + 2 * old(fw).spec_page_size(),
        r is Ok ==> ({
            let rec_at = mlist.reservation.pos + 4 + MODULE_RECORD_SIZE * index;
            &&& module_stored(final(fw)@, rec_at, *m, r->Ok_0.0, r->Ok_0.1)
            &&& within(r->Ok_0.0, r->Ok_0.1, old(fw).spec_position(), final(fw).spec_position())
            &&& same_below_except(final(fw)@, old(fw)@, old(fw).spec_position(), rec_at, rec_at + MODULE_RECORD_SIZE)
        }),
{
    let p0 = mlist.reservation.pos;
    if m.name.len() as u64 > MAX_FILE_LEN - 8 || m.identifier.len() as u64 > MAX_FILE_LEN - 8 {
        return Err(WriterError::TooLarge);
    }
    let mut name: Vec<u8> = Vec::new();
    push_u32(&mut name, m.name.len() as u32);
    let mut k: usize = 0;
    while k < m.name.len()
        invariant
            k <= m.name@.len(),
            name@ == u32_le(m.name@.len() as int) + m.name@.subrange(0, k as int),
        decreases m.name@.len() - k,
    {
        name.push(m.name[k]);
        assert(m.name@.subrange(0, k + 1) == m.name@.subrange(0, k as int).push(m.name@[k as int]));
        k = k + 1;
    }
    assert(m.name@.subrange(0, m.name@.len() as int) == m.name@);
    let mut cv: Vec<u8> = Vec::new();
    push_u32(&mut cv, CV_SIGNATURE_ELF);
    let mut k: usize = 0;
    while k < m.identifier.len()
        invariant
            k <= m.identifier@.len(),
            cv@ == u32_le(CV_SIGNATURE_ELF as int) + m.identifier@.subrange(0, k as int),
        decreases m.identifier@.len() - k,
    {
        cv.push(m.identifier[k]);
        assert(m.identifier@.subrange(0, k + 1) == m.identifier@.subrange(0, k as int).push(m.identifier@[k as int]));
        k = k + 1;
    }
    assert(m.identifier@.subrange(0, m.identifier@.len() as int) == m.identifier@);
    let ghost f0 = fw@;
    let ghost q0 = fw.spec_position();
    let name_loc = match write_block(fw, name.as_slice()) {
        Ok(l) => l,
        Err(e) => {
            proof { lemma_keeps_prefix_shorter(fw@, f0, q0, p0 + 4); }
            return Err(e);
        },
    };
    proof { lemma_keeps_prefix_shorter(fw@, f0, q0, p0 + 4); }
    let ghost fa = fw@;
    let ghost qa = fw.spec_position();
    let cv_loc = match write_block(fw, cv.as_slice()) {
        Ok(l) => l,
        Err(e) => {
            proof {
                lemma_keeps_prefix_shorter(fw@, fa, qa, p0 + 4);
                lemma_keeps_prefix_trans(fw@, fa, f0, p0 + 4);
            }
            return Err(e);
        },
    };
    proof {
        lemma_keeps_prefix_shorter(fw@, fa, qa, p0 + 4);
        lemma_keeps_prefix_trans(fw@, fa, f0, p0 + 4);
    }
    let rec = encode_module(m.base, m.size, name_loc.rva, cv_loc);
    let ghost f1 = fw@;
    let ghost at = p0 + 4 + MODULE_RECORD_SIZE * index;
    proof {
        lemma_keeps_to_same(f1, fa, qa, qa, 0, 0);
        lemma_holds_kept(f1, fa, qa, 0, 0, name_loc.rva as int, name@);
    }
    match mlist.write(index as u64, rec.as_slice(), fw) {
        Ok(()) => {},
        Err(e) => return Err(e),
    }
    proof {
        lemma_overwrite_keeps_prefix(f1, at, rec@, p0 + 4);
        lemma_overwrite_lands(f1, at, rec@);
        lemma_overwrite_same(f1, at, rec@, f1.len() as int);
        lemma_holds_kept(fw@, f1, f1.len() as int, at, at + 32, name_loc.rva as int, name@);
        lemma_holds_kept(fw@, f1, f1.len() as int, at, at + 32, cv_loc.rva as int, cv@);
        lemma_keeps_to_same(fa, f0, q0, q0, at, at + 32);
        lemma_keeps_to_same(f1, fa, qa, q0, at, at + 32);
        lemma_same_trans(f1, fa, f0, q0, at, at + 32);
        assert(same_below_except(fw@, f1, q0, at, at + 32));
        lemma_same_trans(fw@, f1, f0, q0, at, at + 32);
    }
    Ok((name_loc, cv_loc))
}

/// Where the module list and what it points at lie in the file.
pub struct ModuleListLayout {
    pub location: Location,
    /// Where each module's name lies.
    pub names: Vec<Location>,
    /// Where each module's identifier record lies.
    pub identifiers: Vec<Location>,
}

/// Holds when `img` holds every module's record, name and identifier record
/// as `l` describes them, and all names and identifiers lie in `[lo, hi)`.
pub open spec fn modules_stored(img: Seq<u8>, l: ModuleListLayout, ms: Seq<ModuleCapture>, lo: int, hi: int) -> bool {
    modules_prefix_stored(img, l.location.rva as int, ms, ms.len() as int, l.names@, l.identifiers@, lo, hi)
}

/// Writes the module list stream: the count, then one record per module
/// with its name and identifier stored after the list.
pub fn write_mappings(fw: &mut FileWriter, modules: &Vec<ModuleCapture>) -> (r: Result<ModuleListLayout, WriterError>)
    requires
        old(fw).wf(),
    ensures
        final(fw).wf(),
        keeps_prefix(final(fw)@, old(fw)@, old(fw).spec_position()),
        final(fw).spec_position() >= old(fw).spec_position(),
        final(fw).spec_page_size() == old(fw).spec_page_size(),
        old(fw)@.len() + module_list_bound(modules@, old(fw).spec_page_size()) <= MAX_FILE_LEN ==> r is Ok,
        r is Ok ==> final(fw)@.len() <= old(fw)@.len() + module_list_bound(modules@, old(fw).spec_page_size()),
        r is Ok ==> ({
            let loc = r->Ok_0.location;
            &&& loc.rva == old(fw).spec_position()
            &&& loc.data_size == 4 + MODULE_RECORD_SIZE * modules@.len()
            &&& final(fw).spec_position() >= loc.rva + loc.data_size
            &&& le32(final(fw)@, loc.rva as int) == modules@.len()
            &&& modules_stored(final(fw)@, r->Ok_0, modules@, loc.rva + loc.data_size, final(fw).spec_position() as int)
        }),
{
    let n = modules.len();
    let p0 = fw.position();
    let ghost before = fw@;
    let ghost ps = fw.spec_page_size();
    let ghost l0 = fw@.len() as int;
    let ghost cond = l0 + module_list_bound(modules@, ps) <= MAX_FILE_LEN;
    proof {
        lemma_modules_data_mono(modules@, 0);
        lemma_modules_data_mono(modules@, modules@.len() as int);
        assert(n * ps >= 0) by (nonlinear_arith) requires ps > 0;
    }
    if n as u128 > (MAX_FILE_LEN as u128 - 4) / MODULE_RECORD_SIZE as u128 {
        proof { assert(fw@.subrange(0, p0 as int) == before.subrange(0, p0 as int)); }
        return Err(WriterError::TooLarge);
    }
    proof {
        lemma_grown_len_bound(fw, 4 + MODULE_RECORD_SIZE * n);
    }
    let mlist = match fw.reserve_header_array(4, MODULE_RECORD_SIZE, n as u64) {
        Ok(t) => t,
        Err(e) => return Err(e),
    };
    let mut count: Vec<u8> = Vec::new();
    push_u32(&mut count, n as u32);
    let ghost mid = fw@;
    proof {
        assert(mid.subrange(0, p0 as int) == before.subrange(0, p0 as int)) by {
            assert(mid.subrange(0, p0 as int) == mid.subrange(0, before.len() as int).subrange(0, p0 as int));
        }
    }
    match mlist.write_header(count.as_slice(), fw) {
        Ok(()) => {},
        Err(e) => return Err(e),
    }
    proof {
        lemma_overwrite_keeps_prefix(mid, p0 as int, count@, p0 as int);
        lemma_overwrite_lands(mid, p0 as int, count@);
    }
    let ghost after_count = fw@;
    let ghost l1 = fw@.len() as int;
    let location = mlist.location();
    let ghost base = p0 + 4 + MODULE_RECORD_SIZE * n;
    let mut names: Vec<Location> = Vec::new();
    let mut identifiers: Vec<Location> = Vec::new();
    let mut i: usize = 0;
    while i < n
        invariant
            fw.wf(),
            fw.spec_page_size() == ps,
            ps > 0,
            location.rva == p0,
            location.data_size == 4 + MODULE_RECORD_SIZE * n,
            base == p0 + 4 + MODULE_RECORD_SIZE * n,
            holds_at(fw@, p0 as int, u32_le(n as int)),
            modules_prefix_stored(fw@, p0 as int, modules@, i as int, names@, identifiers@, base, fw.spec_position() as int),
            l1 <= l0 + 4 + MODULE_RECORD_SIZE * n + ps,
            fw@.len() <= l1 + modules_data(modules@.subrange(0, i as int)) + 2 * i * ps,
            cond == (l0 + module_list_bound(modules@, ps) <= MAX_FILE_LEN),
            ps == old(fw).spec_page_size(),
            l0 == old(fw)@.len(),
            n == modules@.len(),
            i <= n,
            mlist.reservation.pos == p0,
            mlist.reservation.size == 4 + MODULE_RECORD_SIZE * n,
            mlist.header_size == 4,
            mlist.elem_size == MODULE_RECORD_SIZE,
            p0 + 4 + MODULE_RECORD_SIZE * n <= fw.spec_position(),
            p0 + 4 + MODULE_RECORD_SIZE * n <= MAX_FILE_LEN,
            keeps_prefix(fw@, after_count, p0 + 4),
            keeps_prefix(after_count, before, p0 as int),
            after_count.subrange(p0 as int, p0 + 4) == u32_le(n as int),
            after_count.len() >= p0 + 4,
            before == old(fw)@,
            p0 == old(fw).spec_position(),
        decreases n - i,
    {
        let ghost f0 = fw@;
        proof {
            assert(4 + MODULE_RECORD_SIZE * i + MODULE_RECORD_SIZE <= 4 + MODULE_RECORD_SIZE * n) by (nonlinear_arith)
                requires i < n;
        }
        proof {
            lemma_modules_data_prefix(modules@, i as int);
            assert(2 * (i + 1) * ps == 2 * i * ps + 2 * ps) by (nonlinear_arith);
            assert(2 * (i + 1) * ps <= 2 * n * ps) by (nonlinear_arith) requires i + 1 <= n, ps > 0;
            if cond {
                assert(fw@.len() + module_data(modules@[i as int]) + 2 * ps <= MAX_FILE_LEN);
            }
        }
        let ghost q0 = fw.spec_position() as int;
        let (nm, cv) = match write_one_module(fw, &mlist, i, &modules[i]) {
            Ok(x) => x,
            Err(e) => {
                proof {
                    lemma_keeps_prefix_trans(fw@, f0, after_count, p0 + 4);
                    lemma_keeps_prefix_shorter(fw@, after_count, p0 + 4, p0 as int);
                    lemma_keeps_prefix_trans(fw@, after_count, before, p0 as int);
                }
                return Err(e);
            },
        };
        proof {
            lemma_keeps_prefix_trans(fw@, f0, after_count, p0 + 4);
            let at = p0 + 4 + MODULE_RECORD_SIZE * i;
            lemma_holds_kept(fw@, f0, q0, at, at + MODULE_RECORD_SIZE, p0 as int, u32_le(n as int));
            lemma_modules_prefix_kept(fw@, f0, q0, at, at + MODULE_RECORD_SIZE, p0 as int, n as int, modules@,
                i as int, names@, identifiers@, fw.spec_position() as int);
            lemma_modules_prefix_push(fw@, p0 as int, modules@, i as int, names@, identifiers@, base,
                fw.spec_position() as int, nm, cv);
        }
        names.push(nm);
        identifiers.push(cv);
        i = i + 1;
    }
    proof {
        assert(fw@.subrange(p0 as int, p0 + 4) == after_count.subrange(p0 as int, p0 + 4)) by {
            assert(fw@.subrange(p0 as int, p0 + 4) == fw@.subrange(0, p0 + 4).subrange(p0 as int, p0 + 4));
            assert(after_count.subrange(p0 as int, p0 + 4) == after_count.subrange(0, p0 + 4).subrange(p0 as int, p0 + 4));
        }
        lemma_keeps_prefix_shorter(fw@, after_count, p0 + 4, p0 as int);
        lemma_keeps_prefix_trans(fw@, after_count, before, p0 as int);
        lemma_u32_le_roundtrip(fw@, p0 as int, n as int);
    }
    Ok(ModuleListLayout { location, names, identifiers })
}

/// Holds for a dump image whose header carries the signature, the version,
/// `NUM_STREAMS` streams and the directory right after the header, whose
/// directory lists the thread list and then the module list, and whose
/// streams start with their record counts.
pub open spec fn dump_layout(img: Seq<u8>, threads: int, modules: int) -> bool {
    &&& img.len() >= HEADER_SIZE + 2 * DIRECTORY_ENTRY_SIZE
    &&& le32(img, 0) == MINIDUMP_SIGNATURE
    &&& le32(img, 4) == MINIDUMP_VERSION
    &&& le32(img, 8) == NUM_STREAMS
    &&& le32(img, 12) == HEADER_SIZE
    &&& le32(img, 32) == THREAD_LIST_STREAM
    &&& le32(img, 44) == MODULE_LIST_STREAM
    &&& le32(img, 40) + 4 <= img.len() && le32(img, le32(img, 40)) == threads
    &&& le32(img, 52) + 4 <= img.len() && le32(img, le32(img, 52)) == modules
}


/// A 32-bit field reads the same from images that agree on its bytes.
proof fn lemma_le32_stable(a: Seq<u8>, b: Seq<u8>, o: int)
    requires
        0 <= o,
        o + 4 <= a.len(),
        o + 4 <= b.len(),
        a.subrange(o, o + 4) == b.subrange(o, o + 4),
    ensures
        le32(a, o) == le32(b, o),
{
    assert(a[o] == a.subrange(o, o + 4)[0]);
    assert(a[o + 1] == a.subrange(o, o + 4)[1]);
    assert(a[o + 2] == a.subrange(o, o + 4)[2]);
    assert(a[o + 3] == a.subrange(o, o + 4)[3]);
    assert(b[o] == b.subrange(o, o + 4)[0]);
    assert(b[o + 1] == b.subrange(o, o + 4)[1]);
    assert(b[o + 2] == b.subrange(o, o + 4)[2]);
    assert(b[o + 3] == b.subrange(o, o + 4)[3]);
}

/// A 32-bit field before `k` reads the same from images that keep their prefix.
proof fn lemma_le32_kept(a: Seq<u8>, b: Seq<u8>, k: int, o: int)
    requires
        keeps_prefix(a, b, k),
        0 <= o,
        o + 4 <= k,
    ensures
        le32(a, o) == le32(b, o),
{
    assert(a.subrange(o, o + 4) == a.subrange(0, k).subrange(o, o + 4));
    assert(b.subrange(o, o + 4) == b.subrange(0, k).subrange(o, o + 4));
    lemma_le32_stable(a, b, o);
}

/// A 32-bit field outside a write reads the same after it.
proof fn lemma_le32_untouched(s: Seq<u8>, at: int, w: Seq<u8>, o: int)
    requires
        0 <= o,
        o + 4 <= s.len(),
        at + w.len() <= o || o + 4 <= at,
    ensures
        le32(overwrite(s, at, w), o) == le32(s, o),
{
    lemma_overwrite_keeps_range(s, at, w, o, o + 4);
    lemma_le32_stable(overwrite(s, at, w), s, o);
}


/// The fields of a header read back as written.
#[verifier::rlimit(40)]
proof fn lemma_header_fields(img: Seq<u8>, time: int)
    requires
        0 <= time < 4294967296,
        img.len() >= 32,
        img.subrange(0, 32) == header_bytes(NUM_STREAMS as int, HEADER_SIZE as int, time),
    ensures
        le32(img, 0) == MINIDUMP_SIGNATURE,
        le32(img, 4) == MINIDUMP_VERSION,
        le32(img, 8) == NUM_STREAMS,
        le32(img, 12) == HEADER_SIZE,
        le32(img, 20) == time,
{
    let h = header_bytes(NUM_STREAMS as int, HEADER_SIZE as int, time);
    assert(img.subrange(0, 4) == h.subrange(0, 4));
    assert(img.subrange(4, 8) == h.subrange(4, 8));
    assert(img.subrange(8, 12) == h.subrange(8, 12));
    assert(img.subrange(12, 16) == h.subrange(12, 16));
    assert(h.subrange(0, 4) == u32_le(MINIDUMP_SIGNATURE as int));
    assert(h.subrange(4, 8) == u32_le(MINIDUMP_VERSION as int));
    assert(h.subrange(8, 12) == u32_le(NUM_STREAMS as int));
    assert(h.subrange(12, 16) == u32_le(HEADER_SIZE as int));
    assert(img.subrange(20, 24) == h.subrange(20, 24));
    assert(h.subrange(20, 24) == u32_le(time));
    lemma_u32_le_roundtrip(img, 20, time);
    lemma_u32_le_roundtrip(img, 0, MINIDUMP_SIGNATURE as int);
    lemma_u32_le_roundtrip(img, 4, MINIDUMP_VERSION as int);
    lemma_u32_le_roundtrip(img, 8, NUM_STREAMS as int);
    lemma_u32_le_roundtrip(img, 12, HEADER_SIZE as int);
}

/// The stream type and offset of a directory entry read back as written.
proof fn lemma_dir_fields(img: Seq<u8>, o: int, ty: int, loc: Location)
    requires
        0 <= ty < 4294967296,
        0 <= o,
        o + 12 <= img.len(),
        img.subrange(o, o + 12) == directory_bytes(ty, loc),
    ensures
        le32(img, o) == ty,
        le32(img, o + 8) == loc.rva,
{
    let d = directory_bytes(ty, loc);
    assert(img.subrange(o, o + 4) == d.subrange(0, 4));
    assert(img.subrange(o + 8, o + 12) == d.subrange(8, 12));
    assert(d.subrange(0, 4) == u32_le(ty));
    assert(d.subrange(8, 12) == u32_le(loc.rva as int));
    lemma_u32_le_roundtrip(img, o, ty);
    lemma_u32_le_roundtrip(img, o + 8, loc.rva as int);
}

/// Where the streams of a dump lie.
pub struct DumpLayout {
    pub threads: ThreadListLayout,
    pub modules: ModuleListLayout,
    /// The code stored around the crashing instruction, if any was given.
    pub ip_memory: Option<MemoryDescriptor>,
}

/// Writes a whole dump into an empty file: the header, the directory, the
/// thread list and the module list, reserving each before filling it so that
/// an interrupted dump still starts with a complete header. `time` is the
/// header's time stamp. Returns where the streams and what they point at lie;
/// the image holds every thread and module record, stored stack, context,
/// name and identifier as `write_thread_list` and `write_mappings` describe.
#[verifier::rlimit(60)]
pub fn dump(
    fw: &mut FileWriter,
    threads: &Vec<ThreadCapture>,
    modules: &Vec<ModuleCapture>,
    crash_tid: u32,
    settings: &MinidumpSettings,
    mappings: &Vec<MappingInfo>,
    ip_memory: &Option<(u64, Vec<u8>)>,
    time: u32,
) -> (r: Result<DumpLayout, WriterError>)
    requires
        old(fw).wf(),
        old(fw).spec_position() == 0,
    ensures
        final(fw).wf(),
        r is Ok ==> ({
            let img = final(fw)@;
            let tl = r->Ok_0.threads;
            let ml = r->Ok_0.modules;
            let n = threads@.len();
            let extra = extra_stack_len(settings.size_limit, tl.location.rva + tl.location.data_size, n as int);
            &&& dump_layout(img, n as int, modules@.len() as int)
            &&& le32(img, 20) == time
            &&& le32(img, 40) == tl.location.rva
            &&& le32(img, 52) == ml.location.rva
            &&& threads_stored(img, tl, threads@, crash_tid, extra, settings.sanitize_stacks, mappings@)
            &&& modules_stored(img, ml, modules@, ml.location.rva + ml.location.data_size, final(fw).spec_position() as int)
            &&& forall|i: int| #![trigger tl.stacks@[i]] 0 <= i < n && extra is Some && i >= LIMIT_BASE_THREAD_COUNT
                && threads@[i].tid != crash_tid ==> tl.stacks@[i].memory.data_size <= MAX_EXTRA_THREAD_STACK
            &&& match *ip_memory {
                Some((start, bytes)) => r->Ok_0.ip_memory is Some && r->Ok_0.ip_memory.unwrap().start_of_memory_range == start
                    && r->Ok_0.ip_memory.unwrap().memory.data_size == bytes@.len()
                    && holds_at(img, r->Ok_0.ip_memory.unwrap().memory.rva as int, bytes@),
                None => r->Ok_0.ip_memory is None,
            }
        }),
        old(fw)@.len() + dump_bound(threads@, modules@, ip_len(*ip_memory), old(fw).spec_page_size()) <= MAX_FILE_LEN ==> r is Ok,
{
    let ghost ps = fw.spec_page_size();
    let ghost l0 = fw@.len() as int;
    proof {
        lemma_grown_len_bound(fw, HEADER_SIZE as int);
        lemma_threads_data_mono(threads@, 0);
        lemma_modules_data_mono(modules@, 0);
        lemma_threads_data_mono(threads@, threads@.len() as int);
        lemma_modules_data_mono(modules@, modules@.len() as int);
        assert(threads@.len() * ps >= 0) by (nonlinear_arith) requires ps > 0;
        assert(modules@.len() * ps >= 0) by (nonlinear_arith) requires ps > 0;
    }
    let header = match fw.reserve(HEADER_SIZE) {
        Ok(h) => h,
        Err(e) => return Err(e),
    };
    let hdr = encode_header(NUM_STREAMS, HEADER_SIZE as u32, time);
    let ghost f0 = fw@;
    match header.write(hdr.as_slice(), fw) {
        Ok(()) => {},
        Err(e) => return Err(e),
    }
    proof {
        lemma_overwrite_lands(f0, 0, hdr@);
    }
    let ghost f1 = fw@;
    proof {
        lemma_grown_len_bound(fw, 2 * DIRECTORY_ENTRY_SIZE as int);
    }
    let dir = match fw.reserve_array(DIRECTORY_ENTRY_SIZE, NUM_STREAMS as u64) {
        Ok(d) => d,
        Err(e) => return Err(e),
    };
    let ghost f2 = fw@;
    proof {
        assert(f2.subrange(0, 32) == f1.subrange(0, 32)) by {
            assert(f2.subrange(0, 32) == f2.subrange(0, f1.len() as int).subrange(0, 32));
        }
    }
    let tl = match write_thread_list(fw, threads, crash_tid, settings, mappings) {
        Ok(x) => x,
        Err(e) => return Err(e),
    };
    let tloc = tl.location;
    let ghost f3a = fw@;
    let ghost p3a = fw.spec_position() as int;
    let ip_block: Option<MemoryDescriptor> = match ip_memory {
        Some((start, bytes)) => match write_block(fw, bytes.as_slice()) {
            Ok(loc) => Some(MemoryDescriptor { start_of_memory_range: *start, memory: loc }),
            Err(e) => return Err(e),
        },
        None => None,
    };
    let ghost f3 = fw@;
    let ghost p3 = fw.spec_position();
    proof {
        lemma_keeps_to_same(f3, f3a, p3a, p3a, 0, 0);
        lemma_threads_kept(f3, f3a, p3a, 0, 0, tl, threads@, crash_tid,
            extra_stack_len(settings.size_limit, tloc.rva + tloc.data_size, threads@.len() as int),
            settings.sanitize_stacks, mappings@);
        lemma_keeps_prefix_shorter(f3, f3a, p3a, tloc.rva + tloc.data_size);
        lemma_le32_kept(f3, f3a, tloc.rva + tloc.data_size, tloc.rva as int);
    }
    let ml = match write_mappings(fw, modules) {
        Ok(x) => x,
        Err(e) => return Err(e),
    };
    let mloc = ml.location;
    let ghost f4 = fw@;
    let ghost p4 = fw.spec_position() as int;
    let ghost extra = extra_stack_len(settings.size_limit, tloc.rva + tloc.data_size, threads@.len() as int);
    proof {
        lemma_keeps_to_same(f4, f3, p3, p3a, 0, 0);
        lemma_threads_kept(f4, f3, p3a, 0, 0, tl, threads@, crash_tid, extra, settings.sanitize_stacks, mappings@);
        lemma_keeps_prefix_shorter(f4, f3, p3, tloc.rva + tloc.data_size);
        lemma_le32_kept(f4, f3, tloc.rva + tloc.data_size, tloc.rva as int);
        match ip_memory {
            Some((start, bytes)) => {
                lemma_keeps_to_same(f4, f3, p3, p3 as int, 0, 0);
                lemma_holds_kept(f4, f3, p3 as int, 0, 0, ip_block.unwrap().memory.rva as int, bytes@);
            },
            None => {},
        }
    }
    let tdir = encode_directory(THREAD_LIST_STREAM, tloc);
    match dir.write(0, tdir.as_slice(), fw) {
        Ok(()) => {},
        Err(e) => return Err(e),
    }
    let ghost f5 = fw@;
    proof {
        lemma_overwrite_same(f4, 32, tdir@, p3a);
        lemma_threads_kept(f5, f4, p3a, 32, 44, tl, threads@, crash_tid, extra, settings.sanitize_stacks, mappings@);
        lemma_overwrite_same(f4, 32, tdir@, p3 as int);
        match ip_memory {
            Some((start, bytes)) => {
                lemma_holds_kept(f5, f4, p3 as int, 32, 44, ip_block.unwrap().memory.rva as int, bytes@);
            },
            None => {},
        }
        lemma_overwrite_same(f4, 32, tdir@, p4);
        lemma_modules_prefix_kept(f5, f4, p4, 32, 44, mloc.rva as int, modules@.len() as int, modules@,
            modules@.len() as int, ml.names@, ml.identifiers@, p4);
        lemma_le32_untouched(f4, 32, tdir@, tloc.rva as int);
        lemma_le32_untouched(f4, 32, tdir@, mloc.rva as int);
        lemma_overwrite_keeps_prefix(f4, 32, tdir@, 32);
        lemma_overwrite_lands(f4, 32, tdir@);
    }
    let mdir = encode_directory(MODULE_LIST_STREAM, mloc);
    match dir.write(1, mdir.as_slice(), fw) {
        Ok(()) => {},
        Err(e) => return Err(e),
    }
    proof {
        let img = fw@;
        lemma_overwrite_same(f5, 44, mdir@, p3a);
        lemma_threads_kept(img, f5, p3a, 44, 56, tl, threads@, crash_tid, extra, settings.sanitize_stacks, mappings@);
        lemma_overwrite_same(f5, 44, mdir@, p3 as int);
        match ip_memory {
            Some((start, bytes)) => {
                lemma_holds_kept(img, f5, p3 as int, 44, 56, ip_block.unwrap().memory.rva as int, bytes@);
            },
            None => {},
        }
        lemma_overwrite_same(f5, 44, mdir@, p4);
        lemma_modules_prefix_kept(img, f5, p4, 44, 56, mloc.rva as int, modules@.len() as int, modules@,
            modules@.len() as int, ml.names@, ml.identifiers@, p4);
        lemma_le32_untouched(f5, 44, mdir@, tloc.rva as int);
        lemma_le32_untouched(f5, 44, mdir@, mloc.rva as int);
        lemma_overwrite_keeps_prefix(f5, 44, mdir@, 44);
        lemma_overwrite_lands(f5, 44, mdir@);
        lemma_keeps_prefix_shorter(f4, f3, p3, 56);
        lemma_keeps_prefix_shorter(f3, f3a, p3a, 56);
        lemma_keeps_prefix_trans(f3, f3a, f2, 56);
        lemma_keeps_prefix_shorter(f3, f2, 56, 32);
        lemma_keeps_prefix_shorter(f4, f3, 56, 32);
        lemma_keeps_prefix_shorter(f5, f4, 32, 32);
        lemma_keeps_prefix_shorter(img, f5, 44, 32);
        assert(f2.subrange(0, 32) == hdr@);
        assert(img.subrange(0, 32) == hdr@);
        lemma_header_fields(img, time as int);
        assert(img.subrange(32, 44) == tdir@) by {
            assert(img.subrange(32, 44) == img.subrange(0, 44).subrange(32, 44));
            assert(f5.subrange(32, 44) == f5.subrange(0, 44).subrange(32, 44));
        }
        lemma_dir_fields(img, 32, THREAD_LIST_STREAM as int, tloc);
        lemma_dir_fields(img, 44, MODULE_LIST_STREAM as int, mloc);
    }
    Ok(DumpLayout { threads: tl, modules: ml, ip_memory: ip_block })
}

} // verus!
