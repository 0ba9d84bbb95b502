use vstd::prelude::*;
use vstd::string::StringSliceAdditionalSpecFns;
use crate::fixed_str::FixedStr;
use crate::ptrace_dumper::Error;

verus! {

/// The longest path name a mapping record holds.
pub const NAME_CAPACITY: usize = 255;

/// One contiguous region of the crashing process's address space.
pub struct MappingInfo {
    pub start_addr: usize,
    pub size: usize,
    pub sys_start_addr: usize,
    pub sys_end_addr: usize,
    pub offset: usize,
    /// Holds when the region has the execute permission.
    pub has_exec: bool,
    pub name: FixedStr<255>,
}

/// Holds when `address` lies in `[start, start + size)`.
pub open spec fn contains(start: int, size: int, address: int) -> bool {
    start <= address < start + size
}

/// The first index at or after `from` where `s` holds the byte `c`.
pub open spec fn find_from(s: Seq<u8>, c: u8, from: int) -> Option<int>
    decreases s.len() - from,
{
    if from < 0 || from >= s.len() {
        None
    } else if s[from] == c {
        Some(from)
    } else {
        find_from(s, c, from + 1)
    }
}

/// Holds for the ASCII hexadecimal digits, of either case.
pub open spec fn is_hex_digit(b: u8) -> bool {
    (48 <= b <= 57) || (65 <= b <= 70) || (97 <= b <= 102)
}

/// The value of one hexadecimal digit.
pub open spec fn hex_digit_value(b: u8) -> int {
    if 48 <= b <= 57 {
        b - 48
    } else if 65 <= b <= 70 {
        b - 55
    } else {
        b - 87
    }
}

/// The number written by the hexadecimal digits `s`, most significant first.
pub open spec fn hex_value(s: Seq<u8>) -> int
    decreases s.len(),
{
    if s.len() == 0 {
        0
    } else {
        hex_value(s.drop_last()) * 16 + hex_digit_value(s.last())
    }
}

/// Holds when `s` is a non-empty run of hex digits whose value fits in `usize`.
pub open spec fn valid_hex(s: Seq<u8>) -> bool {
    s.len() > 0 && (forall|i: int| 0 <= i < s.len() ==> is_hex_digit(#[trigger] s[i]))
        && hex_value(s) <= usize::MAX
}

/// The fields of a memory-map line `start-end perms offset dev inode [path]`,
/// as plain values.
pub struct MapLine {
    pub start: int,
    pub end: int,
    pub offset: int,
    pub has_exec: bool,
    pub name: Seq<u8>,
}

/// Where the fields of a memory-map line lie, when the separators are there.
pub open spec fn line_layout(line: Seq<u8>) -> Option<(int, int, int)> {
    match find_from(line, 45u8, 0) {
        None => None,
        Some(dash) => match find_from(line, 32u8, dash + 1) {
            None => None,
            Some(end) => if end + 6 > line.len() {
                None
            } else {
                match find_from(line, 32u8, end + 6) {
                    None => None,
                    Some(offset_end) => Some((dash, end, offset_end)),
                }
            },
        },
    }
}

/// The path of a map line: from the first `/` after the offset field to the
/// end of the line, or empty when there is none (anonymous and special regions).
pub open spec fn line_name(line: Seq<u8>, offset_end: int) -> Seq<u8> {
    match find_from(line, 47u8, offset_end) {
        None => Seq::empty(),
        Some(p) => line.subrange(p, line.len() as int),
    }
}

/// The meaning of a memory-map line, or `None` when it is malformed: a
/// missing separator, a field that is not hexadecimal or does not fit, an end
/// below the start, or a path longer than a record holds.
pub open spec fn parse_map_line(line: Seq<u8>) -> Option<MapLine> {
    match line_layout(line) {
        None => None,
        Some((dash, end, offset_end)) => {
            let s = line.subrange(0, dash);
            let e = line.subrange(dash + 1, end);
            let o = line.subrange(end + 6, offset_end);
            let name = line_name(line, offset_end);
            if valid_hex(s) && valid_hex(e) && valid_hex(o) && hex_value(s) <= hex_value(e)
                && name.len() <= 255 {
                Some(
                    MapLine {
                        start: hex_value(s),
                        end: hex_value(e),
                        offset: hex_value(o),
                        has_exec: line.subrange(end + 1, end + 5).contains(120u8),
                        name,
                    },
                )
            } else {
                None
            }
        },
    }
}

/// The first index at or after `from` where `s` holds `c`.
pub fn find_byte(s: &[u8], c: u8, from: usize) -> (r: Option<usize>)
    ensures
        match r {
            Some(i) => find_from(s@, c, from as int) == Some(i as int),
            None => find_from(s@, c, from as int) is None,
        },
    decreases s@.len() - from,
{
    if from >= s.len() {
        None
    } else if s[from] == c {
        Some(from)
    } else {
        find_byte(s, c, from + 1)
    }
}

pub proof fn lemma_find_from_bounds(s: Seq<u8>, c: u8, from: int)
    ensures
        match find_from(s, c, from) {
            Some(i) => from <= i < s.len() && s[i] == c,
            None => true,
        },
    decreases s.len() - from,
{
    if from >= 0 && from < s.len() && s[from] != c {
        lemma_find_from_bounds(s, c, from + 1);
    }
}

/// The value of the hexadecimal digits `s[lo..hi]`, or `None` when the run is
/// empty, holds another byte, or does not fit in `usize`.
pub fn parse_hex(s: &[u8], lo: usize, hi: usize) -> (r: Option<usize>)
    requires
        lo <= hi <= s@.len(),
    ensures
        match r {
            Some(v) => valid_hex(s@.subrange(lo as int, hi as int)) && v == hex_value(
                s@.subrange(lo as int, hi as int),
            ),
            None => !valid_hex(s@.subrange(lo as int, hi as int)),
        },
{
    let ghost run = s@.subrange(lo as int, hi as int);
    if lo == hi {
        return None;
    }
    let mut acc: usize = 0;
    let mut i: usize = lo;
    while i < hi
        invariant
            lo <= i <= hi <= s@.len(),
            run == s@.subrange(lo as int, hi as int),
            forall|k: int| lo <= k < i ==> is_hex_digit(#[trigger] s@[k]),
            acc == hex_value(s@.subrange(lo as int, i as int)),
        decreases hi - i,
    {
        let b = s[i];
        let d: usize;
        if 48 <= b && b <= 57 {
            d = (b - 48) as usize;
        } else if 65 <= b && b <= 70 {
            d = (b - 55) as usize;
        } else if 97 <= b && b <= 102 {
            d = (b - 87) as usize;
        } else {
            assert(run[i - lo] == b);
            assert(!is_hex_digit(run[i - lo]));
            return None;
        }
        proof {
            let next = s@.subrange(lo as int, i + 1);
            assert(next.drop_last() == s@.subrange(lo as int, i as int));
            assert(next.last() == b);
        }
        if acc > (usize::MAX - d) / 16 {
            proof {
                if forall|k: int| 0 <= k < run.len() ==> is_hex_digit(#[trigger] run[k]) {
                    lemma_hex_value_prefix_monotone(run, (i + 1 - lo) as int);
                    assert(run.subrange(0, (i + 1 - lo) as int) == s@.subrange(lo as int, i + 1));
                }
            }
            return None;
        }
        acc = acc * 16 + d;
        i = i + 1;
    }
    proof {
        assert(s@.subrange(lo as int, i as int) == run);
        assert forall|k: int| 0 <= k < run.len() implies is_hex_digit(#[trigger] run[k]) by {
            assert(run[k] == s@[lo + k]);
        }
    }
    Some(acc)
}

/// A hex value grows with its digits: a prefix never exceeds the whole.
proof fn lemma_hex_value_prefix_monotone(s: Seq<u8>, n: int)
    requires
        0 <= n <= s.len(),
        forall|i: int| 0 <= i < s.len() ==> is_hex_digit(#[trigger] s[i]),
    ensures
        hex_value(s.subrange(0, n)) <= hex_value(s),
    decreases s.len() - n,
{
    if n < s.len() {
        lemma_hex_value_prefix_monotone(s, n + 1);
        let p = s.subrange(0, n + 1);
        let q = s.subrange(0, n);
        assert(p.drop_last() == q);
        assert forall|i: int| 0 <= i < q.len() implies is_hex_digit(#[trigger] q[i]) by {
            assert(q[i] == s[i]);
        }
        lemma_hex_value_nonneg(q);
        assert(is_hex_digit(p.last()));
    } else {
        assert(s.subrange(0, n) == s);
    }
}

proof fn lemma_contains_push(a: Seq<u8>, x: u8, c: u8)
    ensures
        a.push(x).contains(c) == (a.contains(c) || x == c),
{
    let b = a.push(x);
    if a.contains(c) {
        let j = choose|j: int| 0 <= j < a.len() && a[j] == c;
        assert(b[j] == c);
    }
    if x == c {
        assert(b[a.len() as int] == c);
    }
    if b.contains(c) && x != c {
        let j = choose|j: int| 0 <= j < b.len() && b[j] == c;
        assert(a[j] == c);
    }
}

proof fn lemma_hex_value_nonneg(s: Seq<u8>)
    requires
        forall|i: int| 0 <= i < s.len() ==> is_hex_digit(#[trigger] s[i]),
    ensures
        hex_value(s) >= 0,
    decreases s.len(),
{
    if s.len() > 0 {
        let t = s.drop_last();
        assert forall|i: int| 0 <= i < t.len() implies is_hex_digit(#[trigger] t[i]) by {
            assert(t[i] == s[i]);
        }
        lemma_hex_value_nonneg(t);
    }
}

impl MappingInfo {
    /// Holds when `address` lies inside this region.
    pub fn contains_address(&self, address: usize) -> (r: bool)
        ensures
            r == contains(self.start_addr as int, self.size as int, address as int),
    {
        self.start_addr <= address && address - self.start_addr < self.size
    }

    /// Parses one line of the process's memory-map table.
    pub fn parse_bytes(line: &[u8]) -> (r: Result<MappingInfo, Error>)
        ensures
            match parse_map_line(line@) {
                Some(m) => r is Ok && r->Ok_0.start_addr == m.start && r->Ok_0.size == m.end
                    - m.start && r->Ok_0.sys_start_addr == m.start && r->Ok_0.sys_end_addr
                    == m.end && r->Ok_0.offset == m.offset && r->Ok_0.has_exec == m.has_exec
                    && r->Ok_0.name@ == m.name && r->Ok_0.name.wf(),
                None => r == Err::<MappingInfo, Error>(Error::InvalidMapping),
            },
    {
        let ghost l = line@;
        let n = line.len();
        let dash = match find_byte(line, 45u8, 0) {
            Some(d) => d,
            None => return Err(Error::InvalidMapping),
        };
        proof {
            assert(find_from(l, 45u8, 0) == Some(dash as int));
            lemma_find_from_bounds(l, 45u8, 0);
        }
        let end = match find_byte(line, 32u8, dash + 1) {
            Some(e) => e,
            None => return Err(Error::InvalidMapping),
        };
        proof {
            assert(find_from(l, 32u8, dash + 1) == Some(end as int));
            lemma_find_from_bounds(l, 32u8, dash + 1);
        }
        if n - end < 6 {
            return Err(Error::InvalidMapping);
        }
        let offset_end = match find_byte(line, 32u8, end + 6) {
            Some(e) => e,
            None => return Err(Error::InvalidMapping),
        };
        proof { lemma_find_from_bounds(l, 32u8, end + 6); }
        let start_addr = match parse_hex(line, 0, dash) {
            Some(v) => v,
            None => return Err(Error::InvalidMapping),
        };
        let end_addr = match parse_hex(line, dash + 1, end) {
            Some(v) => v,
            None => return Err(Error::InvalidMapping),
        };
        let offset = match parse_hex(line, end + 6, offset_end) {
            Some(v) => v,
            None => return Err(Error::InvalidMapping),
        };
        if end_addr < start_addr {
            return Err(Error::InvalidMapping);
        }
        let mut has_exec = false;
        let mut k: usize = end + 1;
        while k < end + 5
            invariant
                end + 1 <= k <= end + 5 <= line@.len(),
                line@.len() == n,
                has_exec == l.subrange(end + 1, k as int).contains(120u8),
                l == line@,
            decreases end + 5 - k,
        {
            proof {
                let a = l.subrange(end + 1, k as int);
                assert(l.subrange(end + 1, k + 1) == a.push(l[k as int]));
                lemma_contains_push(a, l[k as int], 120u8);
            }
            if line[k] == 120u8 {
                has_exec = true;
            }
            k = k + 1;
        }
        let mut name: FixedStr<255> = FixedStr::new();
        match find_byte(line, 47u8, offset_end) {
            Some(p) => {
                proof { lemma_find_from_bounds(l, 47u8, offset_end as int); }
                let res = name.write_bytes(&line[p..line.len()]);
                if res.is_err() {
                    return Err(Error::InvalidMapping);
                }
            },
            None => {},
        }
        Ok(
            MappingInfo {
                start_addr,
                size: end_addr - start_addr,
                sys_start_addr: start_addr,
                sys_end_addr: end_addr,
                offset,
                has_exec,
                name,
            },
        )
    }

    /// Parses one line of the process's memory-map table.
    pub fn from_str(line: &str) -> (r: Result<MappingInfo, Error>)
        ensures
            match parse_map_line(line.spec_bytes()) {
                Some(m) => r is Ok && r->Ok_0.start_addr == m.start && r->Ok_0.size == m.end
                    - m.start && r->Ok_0.sys_start_addr == m.start && r->Ok_0.sys_end_addr
                    == m.end && r->Ok_0.offset == m.offset && r->Ok_0.has_exec == m.has_exec
                    && r->Ok_0.name@ == m.name && r->Ok_0.name.wf(),
                None => r == Err::<MappingInfo, Error>(Error::InvalidMapping),
            },
    {
        Self::parse_bytes(line.as_bytes())
    }
}


/// A mapping record as plain values.
pub struct MapModel {
    pub start: int,
    pub size: int,
    pub sys_start: int,
    pub sys_end: int,
    pub offset: int,
    pub has_exec: bool,
    pub name: Seq<u8>,
}

impl View for MappingInfo {
    type V = MapModel;

    open spec fn view(&self) -> MapModel {
        MapModel {
            start: self.start_addr as int,
            size: self.size as int,
            sys_start: self.sys_start_addr as int,
            sys_end: self.sys_end_addr as int,
            offset: self.offset as int,
            has_exec: self.has_exec,
            name: self.name@,
        }
    }
}

/// The views of a list of records.
pub open spec fn views(s: Seq<MappingInfo>) -> Seq<MapModel> {
    s.map_values(|m: MappingInfo| m@)
}

/// The record a well-formed map line parses to.
pub open spec fn model_of_line(m: MapLine) -> MapModel {
    MapModel {
        start: m.start,
        size: m.end - m.start,
        sys_start: m.start,
        sys_end: m.end,
        offset: m.offset,
        has_exec: m.has_exec,
        name: m.name,
    }
}

/// The name given to the kernel's vDSO mapping: `linux-gate.so`.
pub open spec fn linux_gate_name() -> Seq<u8> {
    seq![108u8, 105u8, 110u8, 117u8, 120u8, 45u8, 103u8, 97u8, 116u8, 101u8, 46u8, 115u8, 111u8]
}

/// A record as enumeration keeps it: the one that starts at the vDSO's
/// address is renamed and given offset zero.
pub open spec fn tag_gate(m: MapModel, linux_gate: Option<usize>) -> MapModel {
    if linux_gate == Some(m.start as usize) && 0 <= m.start <= usize::MAX {
        MapModel { name: linux_gate_name(), offset: 0, ..m }
    } else {
        m
    }
}

/// Holds when `next` continues `last`: it starts where `last` ends, has the
/// same name, and either the same execute flag or gains it.
pub open spec fn mergeable(last: MapModel, next: MapModel) -> bool {
    next.start == last.start + last.size && next.name == last.name && (next.has_exec
        == last.has_exec || (!last.has_exec && next.has_exec))
}

/// `last` extended to cover `next`.
pub open spec fn merged(last: MapModel, next: MapModel) -> MapModel {
    MapModel {
        sys_end: next.sys_end,
        size: next.sys_end - last.start,
        has_exec: last.has_exec || next.has_exec,
        ..last
    }
}

/// The list after one more record is enumerated.
pub open spec fn add_to(list: Seq<MapModel>, m: MapModel) -> Seq<MapModel> {
    if list.len() > 0 && mergeable(list.last(), m) {
        list.drop_last().push(merged(list.last(), m))
    } else {
        list.push(m)
    }
}

/// Holds for records whose fields agree: the system range is the range, the
/// name fits.
pub open spec fn model_wf(m: MapModel) -> bool {
    m.sys_start == m.start && m.sys_end == m.start + m.size && 0 <= m.start && 0 <= m.size
        && m.start + m.size <= usize::MAX && m.name.len() <= 255 && 0 <= m.offset <= usize::MAX
}

impl MappingInfo {
    /// Holds when the record's fields agree with each other.
    pub open spec fn wf(&self) -> bool {
        model_wf(self@) && self.name.wf()
    }
}

/// Holds when every record in the list is well formed.
pub open spec fn all_wf(s: Seq<MappingInfo>) -> bool {
    forall|i: int| 0 <= i < s.len() ==> (#[trigger] s[i]).wf()
}

/// Compares two names byte for byte.
pub fn same_name(a: &FixedStr<255>, b: &FixedStr<255>) -> (r: bool)
    ensures
        r == (a@ == b@),
{
    let x = a.as_bytes();
    let y = b.as_bytes();
    if x.len() != y.len() {
        return false;
    }
    let mut i: usize = 0;
    while i < x.len()
        invariant
            x@ == a@,
            y@ == b@,
            x@.len() == y@.len(),
            i <= x@.len(),
            forall|k: int| 0 <= k < i ==> x@[k] == y@[k],
        decreases x@.len() - i,
    {
        if x[i] != y[i] {
            return false;
        }
        i = i + 1;
    }
    assert(x@ == y@);
    true
}

/// Appends an enumerated record to `mappings`: the vDSO's record is renamed,
/// and a record that continues the last one is merged into it.
pub fn add_mapping(mappings: &mut Vec<MappingInfo>, nfo: MappingInfo, linux_gate: Option<usize>)
    requires
        nfo.wf(),
        all_wf(old(mappings)@),
    ensures
        all_wf(final(mappings)@),
        views(final(mappings)@) == add_to(views(old(mappings)@), tag_gate(nfo@, linux_gate)),
{
    let ghost orig = nfo@;
    let mut nfo = nfo;
    let is_gate = match linux_gate {
        Some(g) => g == nfo.start_addr,
        None => false,
    };
    if is_gate {
        let mut name: FixedStr<255> = FixedStr::new();
        let gate: Vec<u8> = vec![108u8, 105u8, 110u8, 117u8, 120u8, 45u8, 103u8, 97u8, 116u8, 101u8, 46u8, 115u8, 111u8];
        let _ = name.write_bytes(gate.as_slice());
        assert(name@ == linux_gate_name());
        nfo.name = name;
        nfo.offset = 0;
    }
    assert(nfo@ == tag_gate(orig, linux_gate));
    let ghost m = nfo@;
    let ghost before = views(mappings@);
    let len = mappings.len();
    if len > 0 {
        let do_merge = {
            let last = &mappings[len - 1];
            assert(mappings@[len - 1].wf());
            nfo.start_addr == last.start_addr + last.size
                && same_name(&nfo.name, &last.name) && (nfo.has_exec == last.has_exec || (
            !last.has_exec && nfo.has_exec))
        };
        if do_merge {
            assert(before.last() == mappings@[len - 1]@);
            let mut last = mappings.pop().unwrap();
            last.sys_end_addr = nfo.sys_end_addr;
            last.size = last.sys_end_addr - last.start_addr;
            last.has_exec = last.has_exec || nfo.has_exec;
            mappings.push(last);
            proof {
                assert(views(mappings@) =~= add_to(before, m));
            }
            return;
        }
    }
    mappings.push(nfo);
    proof {
        assert(views(mappings@) =~= add_to(before, m));
    }
}

/// Finds the first record that contains `address`.
pub fn find_mapping(mappings: &Vec<MappingInfo>, address: usize) -> (r: Option<usize>)
    ensures
        match r {
            Some(i) => i < mappings@.len() && contains(
                mappings@[i as int].start_addr as int,
                mappings@[i as int].size as int,
                address as int,
            ) && forall|j: int|
                0 <= j < i ==> !contains(
                    mappings@[j].start_addr as int,
                    mappings@[j].size as int,
                    address as int,
                ),
            None => forall|j: int|
                0 <= j < mappings@.len() ==> !contains(
                    mappings@[j].start_addr as int,
                    mappings@[j].size as int,
                    address as int,
                ),
        },
{
    let mut i: usize = 0;
    while i < mappings.len()
        invariant
            i <= mappings@.len(),
            forall|j: int|
                0 <= j < i ==> !contains(
                    mappings@[j].start_addr as int,
                    mappings@[j].size as int,
                    address as int,
                ),
        decreases mappings@.len() - i,
    {
        if mappings[i].contains_address(address) {
            return Some(i);
        }
        i = i + 1;
    }
    None
}

/// The list with the record at `i` moved to the front, the others kept in order.
pub open spec fn moved_to_front<A>(s: Seq<A>, i: int) -> Seq<A> {
    seq![s[i]] + s.subrange(0, i) + s.subrange(i + 1, s.len() as int)
}

/// Puts the record that holds the program's entry point first, as the dump
/// format expects the main executable there; the others keep their order.
pub fn move_entry_first(mappings: &mut Vec<MappingInfo>, entry_point: Option<usize>)
    requires
        all_wf(old(mappings)@),
    ensures
        all_wf(final(mappings)@),
        match entry_point {
            None => final(mappings)@ == old(mappings)@,
            Some(ep) => {
                let s = old(mappings)@;
                if exists|i: int|
                    0 <= i < s.len() && contains(s[i].start_addr as int, s[i].size as int, ep as int) {
                    exists|i: int|
                        0 <= i < s.len() && contains(s[i].start_addr as int, s[i].size as int, ep as int)
                            && (forall|j: int|
                            0 <= j < i ==> !contains(s[j].start_addr as int, s[j].size as int, ep as int))
                            && final(mappings)@ == moved_to_front(s, i)
                } else {
                    final(mappings)@ == s
                }
            },
        },
{
    let ghost s = mappings@;
    if let Some(ep) = entry_point {
        match find_mapping(mappings, ep) {
            Some(pos) => {
                if pos != 0 {
                    let entry = mappings.remove(pos);
                    mappings.insert(0, entry);
                    assert(mappings@ =~= moved_to_front(s, pos as int));
                } else {
                    assert(s =~= moved_to_front(s, 0));
                }
                assert(all_wf(mappings@)) by {
                    assert forall|k: int| 0 <= k < mappings@.len() implies (#[trigger] mappings@[k]).wf() by {
                        if k == 0 {
                            assert(mappings@[k] == s[pos as int]);
                        } else if k <= pos {
                            assert(mappings@[k] == s[k - 1]);
                        } else {
                            assert(mappings@[k] == s[k]);
                        }
                    }
                }
            },
            None => {},
        }
    }
}

} // verus!
