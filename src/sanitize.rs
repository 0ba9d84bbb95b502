use vstd::prelude::*;
use crate::elf::{le64, read_u64};
use crate::mapping::{contains, MappingInfo};
use vstd::arithmetic::div_mod::lemma_div_is_ordered;

verus! {

/// The word size of the dumped process.
pub const WORD_SIZE: usize = 8;

/// Words whose value, read as a signed integer, lies within this distance of
/// zero are kept as small integers.
pub const SMALL_INT_MAGNITUDE: u64 = 4096;

/// The value written over a word that looks like neither a small integer nor
/// a code pointer.
pub const SENTINEL: u64 = 0x0defaced0defaced;

/// The little-endian bytes of `SENTINEL`, by position in the word.
pub open spec fn sentinel_byte(k: int) -> u8 {
    if k % 4 == 0 {
        0xed
    } else if k % 4 == 1 {
        0xac
    } else if k % 4 == 2 {
        0xef
    } else {
        0x0d
    }
}

/// Holds when `v`, read as a signed word, is within `SMALL_INT_MAGNITUDE` of zero.
pub open spec fn small_int(v: int) -> bool {
    v <= SMALL_INT_MAGNITUDE || v >= 0x1_0000_0000_0000_0000 - SMALL_INT_MAGNITUDE
}

/// Holds when `v` lies in an executable mapping.
pub open spec fn points_to_exec(ms: Seq<MappingInfo>, v: int) -> bool {
    exists|i: int|
        0 <= i < ms.len() && (#[trigger] ms[i]).has_exec && contains(
            ms[i].start_addr as int,
            ms[i].size as int,
            v,
        )
}

/// Holds when a stack word of value `v` is kept as it is.
pub open spec fn word_kept(ms: Seq<MappingInfo>, v: int) -> bool {
    small_int(v) || points_to_exec(ms, v)
}

/// Where zeroing below the stack pointer ends: the stack pointer's offset
/// rounded up to a word, and at most the stack's length.
pub open spec fn zero_end(len: int, offset: int) -> int {
    let z = if offset % 8 == 0 { offset } else { offset + 8 - offset % 8 };
    if z > len { len } else { z }
}

/// Byte `i` of a stack copy of `s` sanitized for privacy, with the stack
/// pointer at `offset`: bytes below the stack pointer and a trailing partial
/// word become zero; a whole word that is neither a small integer nor a
/// pointer into executable code becomes `SENTINEL`; the rest stays.
pub open spec fn sanitized_byte(s: Seq<u8>, offset: int, ms: Seq<MappingInfo>, i: int) -> u8 {
    let full = s.len() - s.len() % 8;
    if i < zero_end(s.len() as int, offset) || i >= full {
        0u8
    } else {
        let w = i - i % 8;
        if word_kept(ms, le64(s, w)) {
            s[i]
        } else {
            sentinel_byte(i % 8)
        }
    }
}

/// `s` sanitized.
pub open spec fn sanitized(s: Seq<u8>, offset: int, ms: Seq<MappingInfo>) -> Seq<u8> {
    Seq::new(s.len(), |i: int| sanitized_byte(s, offset, ms, i))
}

/// The address span one slot of the code-pointer filter stands for.
pub const SLOT_SPAN: u64 = 0x20_0000;

/// The number of slots in the code-pointer filter.
pub const SLOT_COUNT: usize = 2048;

/// The filter slot of a span index.
pub open spec fn wrap(x: int) -> int {
    x % SLOT_COUNT as int
}

/// The filter slot of an address.
pub open spec fn slot(addr: int) -> int {
    wrap(addr / SLOT_SPAN as int)
}

/// A quick filter for code pointers: one flag per slot of the address
/// space, set for every slot that an executable mapping touches, so a clear
/// flag rules an address out without scanning the mappings.
pub struct ExecFilter {
    slots: Vec<bool>,
}

impl ExecFilter {
    /// Holds when every address inside an executable mapping of `ms` has
    /// its slot set.
    pub closed spec fn covers(&self, ms: Seq<MappingInfo>) -> bool {
        self.slots@.len() == SLOT_COUNT && forall|i: int, a: int|
            0 <= i < ms.len() && (#[trigger] ms[i]).has_exec && contains(ms[i].start_addr as int, ms[i].size as int, a)
                ==> self.slots@[#[trigger] slot(a)]
    }

    /// Builds the filter for the executable mappings of `ms`.
    pub fn new(ms: &Vec<MappingInfo>) -> (r: Self)
        ensures
            r.covers(ms@),
    {
        let mut slots: Vec<bool> = vec![false; SLOT_COUNT];
        let mut i: usize = 0;
        while i < ms.len()
            invariant
                i <= ms@.len(),
                slots@.len() == SLOT_COUNT,
                forall|k: int, a: int|
                    0 <= k < i && (#[trigger] ms@[k]).has_exec && contains(ms@[k].start_addr as int, ms@[k].size as int, a)
                        ==> slots@[#[trigger] slot(a)],
            decreases ms@.len() - i,
        {
            let m = &ms[i];
            if m.has_exec && m.size > 0 {
                let first = (m.start_addr as u64) / SLOT_SPAN;
                let last_addr = m.start_addr as u128 + m.size as u128 - 1;
                let wide = last_addr > u64::MAX as u128;
                let last = if wide { first } else { (last_addr as u64) / SLOT_SPAN };
                proof {
                    if !wide {
                        lemma_div_is_ordered(m.start_addr as int, last_addr as int, SLOT_SPAN as int);
                    }
                }
                let ghost before = slots@;
                if wide || last - first >= SLOT_COUNT as u64 {
                    let mut j: usize = 0;
                    while j < SLOT_COUNT
                        invariant
                            j <= SLOT_COUNT,
                            slots@.len() == SLOT_COUNT,
                            forall|x: int| 0 <= x < j ==> slots@[x],
                            forall|x: int| 0 <= x < SLOT_COUNT && before[x] ==> slots@[x],
                        decreases SLOT_COUNT - j,
                    {
                        slots.set(j, true);
                        j = j + 1;
                    }
                    proof {
                        assert forall|k: int, a: int|
                            0 <= k < i + 1 && (#[trigger] ms@[k]).has_exec && contains(ms@[k].start_addr as int, ms@[k].size as int, a)
                                implies slots@[#[trigger] slot(a)] by {
                            assert(0 <= slot(a) < SLOT_COUNT);
                        }
                    }
                } else {
                    let mut b: u64 = first;
                    while b <= last
                        invariant
                            first <= b <= last + 1,
                            last - first < SLOT_COUNT,
                            last < u64::MAX,
                            slots@.len() == SLOT_COUNT,
                            forall|x: int| first <= x < b ==> slots@[#[trigger] wrap(x)],
                            forall|x: int| 0 <= x < SLOT_COUNT && before[x] ==> slots@[x],
                        decreases last + 1 - b,
                    {
                        slots.set((b % SLOT_COUNT as u64) as usize, true);
                        b = b + 1;
                    }
                    proof {
                        assert forall|k: int, a: int|
                            0 <= k < i + 1 && (#[trigger] ms@[k]).has_exec && contains(ms@[k].start_addr as int, ms@[k].size as int, a)
                                implies slots@[#[trigger] slot(a)] by {
                            if k == i {
                                let lo = m.start_addr as int;
                                lemma_div_is_ordered(lo, a, SLOT_SPAN as int);
                                lemma_div_is_ordered(a, last_addr as int, SLOT_SPAN as int);
                                assert(a / SLOT_SPAN as int <= last);
                                assert(slots@[wrap(a / SLOT_SPAN as int)]);
                            } else {
                                assert(before[slot(a)]);
                                assert(0 <= slot(a) < SLOT_COUNT);
                            }
                        }
                    }
                }
            }
            i = i + 1;
        }
        ExecFilter { slots }
    }

    /// Holds when `v` may lie in an executable mapping of `ms`; `false`
    /// rules it out.
    pub(crate) fn may_hold(&self, v: u64, ms: Ghost<Seq<MappingInfo>>) -> (r: bool)
        requires
            self.covers(ms@),
        ensures
            !r ==> !points_to_exec(ms@, v as int),
    {
        let r = self.slots[((v / SLOT_SPAN) % SLOT_COUNT as u64) as usize];
        proof {
            if !r && points_to_exec(ms@, v as int) {
                let i = choose|i: int| 0 <= i < ms@.len() && (#[trigger] ms@[i]).has_exec && contains(
                    ms@[i].start_addr as int,
                    ms@[i].size as int,
                    v as int,
                );
                assert(self.slots@[slot(v as int)]);
            }
        }
        r
    }
}

/// Holds when `v` lies in an executable mapping; `cache` remembers the last
/// mapping that matched, as saved frame pointers repeat.
pub fn looks_like_code_pointer(ms: &Vec<MappingInfo>, v: u64, cache: &mut Option<usize>) -> (r: bool)
    ensures
        r == points_to_exec(ms@, v as int),
{
    if let Some(k) = *cache {
        if k < ms.len() && ms[k].has_exec && ms[k].start_addr as u64 <= v && v - (ms[k].start_addr as u64) < ms[k].size as u64 {
            assert(ms@[k as int].has_exec);
            return true;
        }
    }
    let mut i: usize = 0;
    while i < ms.len()
        invariant
            i <= ms@.len(),
            forall|j: int|
                0 <= j < i ==> !((#[trigger] ms@[j]).has_exec && contains(
                    ms@[j].start_addr as int,
                    ms@[j].size as int,
                    v as int,
                )),
        decreases ms@.len() - i,
    {
        let m = &ms[i];
        if m.has_exec && m.start_addr as u64 <= v && v - (m.start_addr as u64) < m.size as u64 {
            *cache = Some(i);
            assert(ms@[i as int].has_exec);
            return true;
        }
        i = i + 1;
    }
    false
}

/// Sets the bytes `[lo, hi)` to zero.
fn fill_zero(stack: &mut Vec<u8>, lo: usize, hi: usize)
    requires
        lo <= hi <= old(stack)@.len(),
    ensures
        final(stack)@.len() == old(stack)@.len(),
        forall|k: int| lo <= k < hi ==> final(stack)@[k] == 0u8,
        forall|k: int| 0 <= k < old(stack)@.len() && !(lo <= k < hi) ==> final(stack)@[k] == old(stack)@[k],
{
    let mut i: usize = lo;
    while i < hi
        invariant
            lo <= i <= hi <= stack@.len(),
            stack@.len() == old(stack)@.len(),
            forall|k: int| lo <= k < i ==> stack@[k] == 0u8,
            forall|k: int| 0 <= k < old(stack)@.len() && !(lo <= k < i) ==> stack@[k] == old(stack)@[k],
        decreases hi - i,
    {
        stack.set(i, 0u8);
        i = i + 1;
    }
}

/// Writes `SENTINEL` over the word at `w`.
fn write_sentinel(stack: &mut Vec<u8>, w: usize)
    requires
        w + 8 <= old(stack)@.len(),
    ensures
        final(stack)@.len() == old(stack)@.len(),
        forall|k: int| w <= k < w + 8 ==> final(stack)@[k] == sentinel_byte(k - w),
        forall|k: int| 0 <= k < old(stack)@.len() && !(w <= k < w + 8) ==> final(stack)@[k] == old(stack)@[k],
{
    let sentinel: [u8; 8] = [0xed, 0xac, 0xef, 0x0d, 0xed, 0xac, 0xef, 0x0d];
    let n = stack.len();
    let mut j: usize = 0;
    while j < 8
        invariant
            j <= 8,
            w + 8 <= stack@.len(),
            stack@.len() == n,
            stack@.len() == old(stack)@.len(),
            forall|k: int| 0 <= k < 8 ==> sentinel@[k] == sentinel_byte(k),
            forall|k: int| w <= k < w + j ==> stack@[k] == sentinel_byte(k - w),
            forall|k: int| 0 <= k < old(stack)@.len() && !(w <= k < w + j) ==> stack@[k] == old(stack)@[k],
        decreases 8 - j,
    {
        stack.set(w + j, sentinel[j]);
        j = j + 1;
    }
}

/// Holds when the word at `w` looks like a small integer or a code pointer.
fn keeps_word(
    stack: &Vec<u8>,
    w: usize,
    mappings: &Vec<MappingInfo>,
    filter: &ExecFilter,
    cache: &mut Option<usize>,
) -> (r: bool)
    requires
        w + 8 <= stack@.len(),
        filter.covers(mappings@),
    ensures
        r == word_kept(mappings@, le64(stack@, w as int)),
{
    let v = read_u64(stack.as_slice(), w);
    if v <= SMALL_INT_MAGNITUDE || v >= 0u64.wrapping_sub(SMALL_INT_MAGNITUDE) {
        return true;
    }
    if !filter.may_hold(v, Ghost(mappings@)) {
        return false;
    }
    looks_like_code_pointer(mappings, v, cache)
}

/// A word's value depends on its bytes alone.
proof fn lemma_le64_same(a: Seq<u8>, b: Seq<u8>, w: int)
    requires
        0 <= w,
        w + 8 <= a.len(),
        w + 8 <= b.len(),
        forall|k: int| w <= k < w + 8 ==> a[k] == b[k],
    ensures
        le64(a, w) == le64(b, w),
{
    assert(a[w] == b[w]);
    assert(a[w + 1] == b[w + 1]);
    assert(a[w + 2] == b[w + 2]);
    assert(a[w + 3] == b[w + 3]);
    assert(a[w + 4] == b[w + 4]);
    assert(a[w + 5] == b[w + 5]);
    assert(a[w + 6] == b[w + 6]);
    assert(a[w + 7] == b[w + 7]);
}

/// Sanitizes a copy of a thread's stack in place, for privacy. `offset` is
/// where the stack pointer lies in the copy; `mappings` are the process's
/// mappings, whose executable ones tell code pointers apart.
pub fn sanitize_stack(stack: &mut Vec<u8>, offset: usize, mappings: &Vec<MappingInfo>)
    ensures
        final(stack)@ == sanitized(old(stack)@, offset as int, mappings@),
{
    let ghost s = stack@;
    let len = stack.len();
    let z0: usize = if offset % 8 == 0 { offset } else if offset > usize::MAX - 8 { usize::MAX } else { offset + 8 - offset % 8 };
    let z: usize = if z0 > len { len } else { z0 };
    assert(z == zero_end(len as int, offset as int));
    let full = len - len % 8;
    fill_zero(stack, 0, z);
    let filter = ExecFilter::new(mappings);
    let mut cache: Option<usize> = None;
    let mut w: usize = if z < full { z } else { full };
    assert(w % 8 == 0);
    while w < full
        invariant
            w <= full,
            w >= z || w == full,
            w % 8 == 0,
            full == len - len % 8,
            z == zero_end(len as int, offset as int),
            stack@.len() == len,
            len == s.len(),
            forall|k: int| 0 <= k < z ==> stack@[k] == 0u8,
            forall|k: int| z <= k < w ==> #[trigger] stack@[k] == sanitized_byte(s, offset as int, mappings@, k),
            forall|k: int| w <= k < len && k >= z ==> stack@[k] == s[k],
            filter.covers(mappings@),
        decreases full - w,
    {
        proof {
            lemma_le64_same(stack@, s, w as int);
        }
        let keep = keeps_word(stack, w, mappings, &filter, &mut cache);
        if !keep {
            write_sentinel(stack, w);
        }
        proof {
            assert forall|k: int| w <= k < w + 8 implies #[trigger] stack@[k] == sanitized_byte(s, offset as int, mappings@, k) by {
                assert(k - k % 8 == w);
                assert(k % 8 == k - w);
            }
        }
        w = w + 8;
    }
    let t: usize = if full > z { full } else { z };
    fill_zero(stack, t, len);
    assert forall|i: int| 0 <= i < s.len() implies #[trigger] stack@[i] == sanitized_byte(s, offset as int, mappings@, i) by {
        if i < z {
        } else if i >= full {
        } else {
        }
    }
    assert(stack@ =~= sanitized(s, offset as int, mappings@));
}

} // verus!
