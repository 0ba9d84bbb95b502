use vstd::prelude::*;
use crate::text::{hex_text, push_hex};

verus! {

/// The largest identifier kept; build-ids are 20 bytes (SHA-1) or 8 bytes
/// (xxhash) in practice.
pub const MAX_ID_SIZE: usize = 64;

/// The note type of a GNU build-id.
pub const NT_GNU_BUILD_ID: u32 = 3;

/// The program-header type of a note segment.
pub const PT_NOTE: u32 = 4;

/// The section type of a note section.
pub const SHT_NOTE: u32 = 7;

/// The section type of a section holding program data.
pub const SHT_PROGBITS: u32 = 1;

/// How many bytes of `.text` the fallback identifier folds.
pub const TEXT_HASH_LEN: usize = 4096;

/// The length of the fallback identifier.
pub const FALLBACK_ID_LEN: usize = 16;

/// A little-endian 16-bit field at `o`.
pub open spec fn le16(d: Seq<u8>, o: int) -> int {
    d[o] + d[o + 1] * 256
}

/// A little-endian 32-bit field at `o`.
pub open spec fn le32(d: Seq<u8>, o: int) -> int {
    le16(d, o) + le16(d, o + 2) * 65536
}

/// A little-endian 64-bit field at `o`.
pub open spec fn le64(d: Seq<u8>, o: int) -> int {
    le32(d, o) + le32(d, o + 4) * 4294967296
}

/// `x` rounded up to a multiple of four.
pub open spec fn align4(x: int) -> int {
    if x % 4 == 0 {
        x
    } else {
        x + 4 - x % 4
    }
}

/// The first GNU build-id of at most `MAX_ID_SIZE` bytes in the run of ELF
/// notes that starts at `off`: each note is a name size, a description size
/// and a type, then the name and the description, each padded to four bytes.
/// Scanning stops at the first note that does not fit.
pub open spec fn notes_build_id(d: Seq<u8>, off: int) -> Option<Seq<u8>>
    decreases d.len() - off,
{
    if off < 0 || off + 12 > d.len() {
        None
    } else {
        let namesz = le32(d, off);
        let descsz = le32(d, off + 4);
        let kind = le32(d, off + 8);
        let dstart = align4(off + 12 + namesz);
        if dstart + descsz > d.len() {
            None
        } else if kind == NT_GNU_BUILD_ID && descsz <= MAX_ID_SIZE {
            Some(d.subrange(dstart, dstart + descsz))
        } else if off < align4(dstart + descsz) <= d.len() {
            notes_build_id(d, align4(dstart + descsz))
        } else {
            None
        }
    }
}

/// Holds for a buffer that starts with an ELF identification of either class
/// and is long enough for that class's file header.
pub open spec fn elf_header_ok(d: Seq<u8>) -> bool {
    d.len() >= 5 && d[0] == 0x7f && d[1] == 0x45 && d[2] == 0x4c && d[3] == 0x46 && ((d[4] == 1
        && d.len() >= 52) || (d[4] == 2 && d.len() >= 64))
}

pub open spec fn is64(d: Seq<u8>) -> bool {
    d[4] == 2
}

pub open spec fn ph_off(d: Seq<u8>) -> int {
    if is64(d) { le64(d, 32) } else { le32(d, 28) }
}

pub open spec fn ph_num(d: Seq<u8>) -> int {
    if is64(d) { le16(d, 56) } else { le16(d, 44) }
}

pub open spec fn ph_size(d: Seq<u8>) -> int {
    if is64(d) { 56 } else { 32 }
}

pub open spec fn sh_off(d: Seq<u8>) -> int {
    if is64(d) { le64(d, 40) } else { le32(d, 32) }
}

pub open spec fn sh_num(d: Seq<u8>) -> int {
    if is64(d) { le16(d, 60) } else { le16(d, 48) }
}

pub open spec fn sh_strndx(d: Seq<u8>) -> int {
    if is64(d) { le16(d, 62) } else { le16(d, 50) }
}

pub open spec fn sh_size_of(d: Seq<u8>) -> int {
    if is64(d) { 64 } else { 40 }
}

/// The byte range `[o, o + n)` lies inside the buffer.
pub open spec fn in_buf(d: Seq<u8>, o: int, n: int) -> bool {
    0 <= o && 0 <= n && o + n <= d.len()
}

/// Type, offset and size of program header `i`.
pub open spec fn ph_entry(d: Seq<u8>, i: int) -> (int, int, int) {
    let b = ph_off(d) + i * ph_size(d);
    if is64(d) {
        (le32(d, b), le64(d, b + 8), le64(d, b + 32))
    } else {
        (le32(d, b), le32(d, b + 4), le32(d, b + 16))
    }
}

/// Name offset, type, offset and size of section header `i`.
pub open spec fn sh_entry(d: Seq<u8>, i: int) -> (int, int, int, int) {
    let b = sh_off(d) + i * sh_size_of(d);
    if is64(d) {
        (le32(d, b), le32(d, b + 4), le64(d, b + 24), le64(d, b + 32))
    } else {
        (le32(d, b), le32(d, b + 4), le32(d, b + 16), le32(d, b + 20))
    }
}

/// The build-id of the first note segment, from program header `i` on, that
/// lies in the buffer and holds one.
pub open spec fn segments_build_id(d: Seq<u8>, i: int) -> Option<Seq<u8>>
    decreases ph_num(d) - i,
{
    if i < 0 || i >= ph_num(d) {
        None
    } else {
        let (kind, o, n) = ph_entry(d, i);
        if kind == PT_NOTE && in_buf(d, o, n) && notes_build_id(d.subrange(o, o + n), 0) is Some {
            notes_build_id(d.subrange(o, o + n), 0)
        } else {
            segments_build_id(d, i + 1)
        }
    }
}

/// The build-id found in the note segments, when the program-header table
/// lies in the buffer.
pub open spec fn segment_id(d: Seq<u8>) -> Option<Seq<u8>> {
    if in_buf(d, ph_off(d), ph_num(d) * ph_size(d)) {
        segments_build_id(d, 0)
    } else {
        None
    }
}

/// Holds when the section-name table `names` holds exactly `name` at `at`,
/// followed by its terminator or by the table's end.
pub open spec fn name_at(names: Seq<u8>, at: int, name: Seq<u8>) -> bool {
    0 <= at && at + name.len() <= names.len() && names.subrange(at, at + name.len()) == name && (
    at + name.len() == names.len() || names[at + name.len()] == 0)
}

/// The range of the first section, from header `i` on, of type `kind` named `name`.
pub open spec fn section_from(d: Seq<u8>, names: Seq<u8>, name: Seq<u8>, kind: int, i: int) -> Option<(int, int)>
    decreases sh_num(d) - i,
{
    if i < 0 || i >= sh_num(d) {
        None
    } else {
        let (nm, t, o, n) = sh_entry(d, i);
        if t == kind && name_at(names, nm, name) {
            Some((o, n))
        } else {
            section_from(d, names, name, kind, i + 1)
        }
    }
}

/// The bytes of the first section of type `kind` named `name`, when the
/// section table, the name table and that section lie in the buffer.
pub open spec fn section_named(d: Seq<u8>, name: Seq<u8>, kind: int) -> Option<Seq<u8>> {
    if sh_off(d) == 0 || !in_buf(d, sh_off(d), sh_num(d) * sh_size_of(d)) || sh_strndx(d)
        >= sh_num(d) {
        None
    } else {
        let (_, _, no, nn) = sh_entry(d, sh_strndx(d));
        if !in_buf(d, no, nn) {
            None
        } else {
            match section_from(d, d.subrange(no, no + nn), name, kind, 0) {
                Some((o, n)) => if in_buf(d, o, n) {
                    Some(d.subrange(o, o + n))
                } else {
                    None
                },
                None => None,
            }
        }
    }
}

/// The XOR of the first `chunks` 16-byte chunks of `s`, byte by byte.
pub open spec fn xor_fold(s: Seq<u8>, chunks: int) -> Seq<u8>
    decreases chunks,
{
    if chunks <= 0 {
        Seq::new(16, |j: int| 0u8)
    } else {
        let prev = xor_fold(s, chunks - 1);
        Seq::new(16, |j: int| prev[j] ^ s[16 * (chunks - 1) + j])
    }
}

/// The fallback identifier of a text section: its first page folded by XOR
/// into 16 bytes, a trailing partial chunk left out.
pub open spec fn text_hash(text: Seq<u8>) -> Seq<u8> {
    let n = if text.len() < 4096 { text.len() as int } else { 4096 };
    xor_fold(text, n / 16)
}

/// `.text`
pub open spec fn text_name() -> Seq<u8> {
    seq![46u8, 116u8, 101u8, 120u8, 116u8]
}

/// `.note.gnu.build-id`
pub open spec fn build_id_section_name() -> Seq<u8> {
    seq![46u8, 110u8, 111u8, 116u8, 101u8, 46u8, 103u8, 110u8, 117u8, 46u8, 98u8, 117u8, 105u8,
        108u8, 100u8, 45u8, 105u8, 100u8]
}

/// The identifier of an ELF image: the build-id of its note segments, else
/// that of its `.note.gnu.build-id` section, else the fold of its `.text`.
pub open spec fn elf_identifier(d: Seq<u8>) -> Option<Seq<u8>> {
    if !elf_header_ok(d) {
        None
    } else if segment_id(d) is Some {
        segment_id(d)
    } else {
        match section_named(d, build_id_section_name(), SHT_NOTE as int) {
            Some(s) if notes_build_id(s, 0) is Some => notes_build_id(s, 0),
            _ => match section_named(d, text_name(), SHT_PROGBITS as int) {
                Some(t) => Some(text_hash(t)),
                None => None,
            },
        }
    }
}


/// A module identifier: up to `MAX_ID_SIZE` bytes, compared by value.
pub struct ElfId {
    id: Vec<u8>,
}

impl View for ElfId {
    type V = Seq<u8>;

    closed spec fn view(&self) -> Seq<u8> {
        self.id@
    }
}

/// Reads a little-endian 16-bit field.
pub fn read_u16(d: &[u8], o: usize) -> (r: u64)
    requires
        o + 2 <= d@.len(),
    ensures
        r == le16(d@, o as int),
{
    d[o] as u64 + d[o + 1] as u64 * 256
}

/// Reads a little-endian 32-bit field.
pub fn read_u32(d: &[u8], o: usize) -> (r: u64)
    requires
        o + 4 <= d@.len(),
    ensures
        r == le32(d@, o as int),
        r < 4294967296,
{
    let _n = d.len();
    read_u16(d, o) + read_u16(d, o + 2) * 65536
}

/// Reads a little-endian 64-bit field.
pub fn read_u64(d: &[u8], o: usize) -> (r: u64)
    requires
        o + 8 <= d@.len(),
    ensures
        r == le64(d@, o as int),
{
    let _n = d.len();
    read_u32(d, o) + read_u32(d, o + 4) * 4294967296
}

/// Holds when `[o, o + n)` lies in a buffer of `len` bytes.
fn fits(len: usize, o: u64, n: u64) -> (r: bool)
    ensures
        r == (o + n <= len),
{
    o <= len as u64 && n <= len as u64 - o
}

/// Copies `d[lo..hi]`.
fn copy_range(d: &[u8], lo: usize, hi: usize) -> (r: Vec<u8>)
    requires
        lo <= hi <= d@.len(),
    ensures
        r@ == d@.subrange(lo as int, hi as int),
{
    let mut out: Vec<u8> = Vec::new();
    let mut i: usize = lo;
    while i < hi
        invariant
            lo <= i <= hi <= d@.len(),
            out@ == d@.subrange(lo as int, i as int),
        decreases hi - i,
    {
        out.push(d[i]);
        i = i + 1;
    }
    out
}

/// `x` rounded up to a multiple of four.
fn align_up4(x: u128) -> (r: u128)
    requires
        x + 3 <= u128::MAX,
    ensures
        r == align4(x as int),
{
    if x % 4 == 0 { x } else { x + 4 - x % 4 }
}

impl ElfId {
    /// An identifier holding `slice`, or `None` when it is longer than `MAX_ID_SIZE`.
    pub fn new(slice: &[u8]) -> (r: Option<ElfId>)
        ensures
            slice@.len() <= MAX_ID_SIZE <==> r is Some,
            r is Some ==> r.unwrap()@ == slice@,
    {
        if slice.len() > MAX_ID_SIZE {
            return None;
        }
        Some(ElfId { id: copy_range(slice, 0, slice.len()) })
    }

    /// The identifier's bytes.
    pub fn as_bytes(&self) -> (r: &[u8])
        ensures
            r@ == self@,
    {
        self.id.as_slice()
    }

    /// The identifier of a mapped ELF image of either class: the build-id of
    /// its note segments, else that of its `.note.gnu.build-id` section, else
    /// the fold of the first page of its `.text` section. `None` for a buffer
    /// that is no ELF image or has none of the three.
    pub fn from_mapped_file(elf: &[u8]) -> (r: Option<ElfId>)
        ensures
            match elf_identifier(elf@) {
                Some(id) => r is Some && r.unwrap()@ == id,
                None => r is None,
            },
    {
        let n = elf.len();
        if n < 5 || elf[0] != 0x7f || elf[1] != 0x45 || elf[2] != 0x4c || elf[3] != 0x46 {
            return None;
        }
        let class = elf[4];
        if !((class == 1 && n >= 52) || (class == 2 && n >= 64)) {
            return None;
        }
        match segment_build_id(elf) {
            Some(id) => return Some(id),
            None => {},
        }
        let build_id_name: Vec<u8> = vec![46u8, 110u8, 111u8, 116u8, 101u8, 46u8, 103u8, 110u8, 117u8, 46u8, 98u8, 117u8, 105u8, 108u8, 100u8, 45u8, 105u8, 100u8];
        assert(build_id_name@ == build_id_section_name());
        match find_section_by_name(elf, build_id_name.as_slice(), SHT_NOTE) {
            Some((lo, hi)) => {
                match build_id_from_note(&elf[lo..hi]) {
                    Some(id) => return Some(id),
                    None => {},
                }
            },
            None => {},
        }
        let text: Vec<u8> = vec![46u8, 116u8, 101u8, 120u8, 116u8];
        assert(text@ == text_name());
        match find_section_by_name(elf, text.as_slice(), SHT_PROGBITS) {
            Some((lo, hi)) => Some(hash_text_section(&elf[lo..hi])),
            None => None,
        }
    }
}

/// The first GNU build-id among the ELF notes in `notes`.
pub fn build_id_from_note(notes: &[u8]) -> (r: Option<ElfId>)
    ensures
        match notes_build_id(notes@, 0) {
            Some(id) => r is Some && r.unwrap()@ == id,
            None => r is None,
        },
{
    let len = notes.len();
    let mut off: usize = 0;
    loop
        invariant
            off <= len,
            len == notes@.len(),
            notes_build_id(notes@, off as int) == notes_build_id(notes@, 0),
        decreases len - off,
    {
        if len - off < 12 {
            return None;
        }
        let namesz = read_u32(notes, off);
        let descsz = read_u32(notes, off + 4);
        let kind = read_u32(notes, off + 8);
        let dstart = align_up4(off as u128 + 12 + namesz as u128);
        if dstart + descsz as u128 > len as u128 {
            return None;
        }
        if kind == NT_GNU_BUILD_ID as u64 && descsz <= MAX_ID_SIZE as u64 {
            let lo = dstart as usize;
            let hi = (dstart + descsz as u128) as usize;
            return ElfId::new(&notes[lo..hi]);
        }
        let next = align_up4(dstart + descsz as u128);
        if next <= off as u128 || next > len as u128 {
            return None;
        }
        off = next as usize;
    }
}

/// The build-id of the first note segment that lies in the buffer and holds one.
fn segment_build_id(elf: &[u8]) -> (r: Option<ElfId>)
    requires
        elf_header_ok(elf@),
    ensures
        match segment_id(elf@) {
            Some(id) => r is Some && r.unwrap()@ == id,
            None => r is None,
        },
{
    let n = elf.len();
    let wide = elf[4] == 2;
    let phoff = if wide { read_u64(elf, 32) } else { read_u32(elf, 28) };
    let phnum = if wide { read_u16(elf, 56) } else { read_u16(elf, 44) };
    let phsize: u64 = if wide { 56 } else { 32 };
    if !fits(n, phoff, phnum * phsize) {
        return None;
    }
    let mut i: u64 = 0;
    while i < phnum
        invariant
            elf_header_ok(elf@),
            n == elf@.len(),
            wide == is64(elf@),
            phoff == ph_off(elf@),
            phnum == ph_num(elf@),
            phsize == ph_size(elf@),
            phoff + phnum * phsize <= n,
            i <= phnum,
            segments_build_id(elf@, i as int) == segments_build_id(elf@, 0),
        decreases phnum - i,
    {
        proof {
            assert(i * phsize + phsize <= phnum * phsize) by (nonlinear_arith)
                requires i < phnum, phsize > 0;
        }
        let b = (phoff + i * phsize) as usize;
        let kind = read_u32(elf, b);
        let (o, sz) = if wide {
            (read_u64(elf, b + 8), read_u64(elf, b + 32))
        } else {
            (read_u32(elf, b + 4), read_u32(elf, b + 16))
        };
        if kind == PT_NOTE as u64 && fits(n, o, sz) {
            let found = build_id_from_note(&elf[o as usize..(o + sz) as usize]);
            assert(elf@.subrange(o as int, o + sz) == elf@.subrange(o as int, (o + sz) as usize as int));
            if found.is_some() {
                return found;
            }
        }
        i = i + 1;
    }
    None
}

/// Holds when `names` holds exactly `name` at `at`, then a terminator or the end.
fn name_matches(names: &[u8], at: u64, name: &[u8]) -> (r: bool)
    ensures
        r == name_at(names@, at as int, name@),
{
    let nl = names.len();
    if at > nl as u64 || name.len() as u64 > nl as u64 - at {
        return false;
    }
    let start = at as usize;
    let mut i: usize = 0;
    while i < name.len()
        invariant
            start + name@.len() <= nl,
            nl == names@.len(),
            start == at,
            i <= name@.len(),
            forall|k: int| 0 <= k < i ==> names@[start + k] == name@[k],
        decreases name@.len() - i,
    {
        if names[start + i] != name[i] {
            assert(names@.subrange(at as int, at + name@.len())[i as int] != name@[i as int]);
            return false;
        }
        i = i + 1;
    }
    assert(names@.subrange(at as int, at + name@.len()) == name@);
    start + name.len() == nl || names[start + name.len()] == 0
}

/// The byte range of the first section of type `kind` named `name`, when the
/// section table, the name table and that section lie in the buffer.
pub fn find_section_by_name(elf: &[u8], name: &[u8], kind: u32) -> (r: Option<(usize, usize)>)
    requires
        elf_header_ok(elf@),
    ensures
        match section_named(elf@, name@, kind as int) {
            Some(s) => r is Some && r.unwrap().0 <= r.unwrap().1 <= elf@.len() && elf@.subrange(
                r.unwrap().0 as int,
                r.unwrap().1 as int,
            ) == s,
            None => r is None,
        },
{
    let n = elf.len();
    let wide = elf[4] == 2;
    let shoff = if wide { read_u64(elf, 40) } else { read_u32(elf, 32) };
    let shnum = if wide { read_u16(elf, 60) } else { read_u16(elf, 48) };
    let shstrndx = if wide { read_u16(elf, 62) } else { read_u16(elf, 50) };
    let shsize: u64 = if wide { 64 } else { 40 };
    if shoff == 0 || !fits(n, shoff, shnum * shsize) || shstrndx >= shnum {
        return None;
    }
    proof {
        assert(shstrndx * shsize + shsize <= shnum * shsize) by (nonlinear_arith)
            requires shstrndx < shnum, shsize > 0;
    }
    let nb = (shoff + shstrndx * shsize) as usize;
    let (no, nn) = if wide {
        (read_u64(elf, nb + 24), read_u64(elf, nb + 32))
    } else {
        (read_u32(elf, nb + 16), read_u32(elf, nb + 20))
    };
    if !fits(n, no, nn) {
        return None;
    }
    let names = &elf[no as usize..(no + nn) as usize];
    assert(names@ == elf@.subrange(no as int, no + nn));
    let mut i: u64 = 0;
    while i < shnum
        invariant
            elf_header_ok(elf@),
            n == elf@.len(),
            wide == is64(elf@),
            shoff == sh_off(elf@),
            shnum == sh_num(elf@),
            shsize == sh_size_of(elf@),
            shoff + shnum * shsize <= n,
            i <= shnum,
            names@ == elf@.subrange(no as int, no + nn),
            section_named(elf@, name@, kind as int) == (match section_from(elf@, names@, name@, kind as int, i as int) {
                Some((o, sz)) => if in_buf(elf@, o, sz) {
                    Some(elf@.subrange(o, o + sz))
                } else {
                    None
                },
                None => None,
            }),
        decreases shnum - i,
    {
        proof {
            assert(i * shsize + shsize <= shnum * shsize) by (nonlinear_arith)
                requires i < shnum, shsize > 0;
        }
        let b = (shoff + i * shsize) as usize;
        let nm = read_u32(elf, b);
        let t = read_u32(elf, b + 4);
        let (o, sz) = if wide {
            (read_u64(elf, b + 24), read_u64(elf, b + 32))
        } else {
            (read_u32(elf, b + 16), read_u32(elf, b + 20))
        };
        if t == kind as u64 && name_matches(names, nm, name) {
            if fits(n, o, sz) {
                return Some((o as usize, (o + sz) as usize));
            }
            return None;
        }
        i = i + 1;
    }
    None
}

/// Folds the first page of a text section into a 16-byte identifier.
pub fn hash_text_section(text: &[u8]) -> (r: ElfId)
    ensures
        r@ == text_hash(text@),
{
    let limit: usize = if text.len() < TEXT_HASH_LEN { text.len() } else { TEXT_HASH_LEN };
    let chunks = limit / 16;
    let mut id: Vec<u8> = vec![0u8; 16];
    assert(id@ == xor_fold(text@, 0));
    let mut c: usize = 0;
    while c < chunks
        invariant
            chunks == limit / 16,
            limit <= text@.len(),
            c <= chunks,
            id@ == xor_fold(text@, c as int),
        decreases chunks - c,
    {
        let ghost prev = id@;
        let mut j: usize = 0;
        while j < 16
            invariant
                c < chunks,
                chunks == limit / 16,
                limit <= text@.len(),
                j <= 16,
                id@.len() == 16,
                prev == xor_fold(text@, c as int),
                prev.len() == 16,
                forall|k: int| 0 <= k < j ==> id@[k] == prev[k] ^ text@[16 * c + k],
                forall|k: int| j <= k < 16 ==> id@[k] == prev[k],
            decreases 16 - j,
        {
            let x = id[j] ^ text[16 * c + j];
            id.set(j, x);
            j = j + 1;
        }
        assert(id@ == xor_fold(text@, c + 1));
        c = c + 1;
    }
    ElfId { id }
}


/// The 16 bytes of the UUID form of identifier `id`: at most its first 16
/// bytes, zero-padded, with the first three fields (4, 2 and 2 bytes) byte
/// swapped when the identifier covers them, as a little-endian reader of the
/// GUID layout expects.
pub open spec fn uuid_bytes(id: Seq<u8>) -> Seq<u8> {
    let n = if id.len() < 16 { id.len() as int } else { 16 };
    Seq::new(
        16,
        |i: int|
            if i >= n {
                0u8
            } else if i < 4 && n >= 4 {
                id[3 - i]
            } else if 4 <= i < 6 && n >= 6 {
                id[9 - i]
            } else if 6 <= i < 8 && n >= 8 {
                id[13 - i]
            } else {
                id[i]
            },
    )
}

impl ElfId {
    /// The bytes of the UUID form of this identifier.
    pub fn uuid_bytes(&self) -> (r: Vec<u8>)
        ensures
            r@ == uuid_bytes(self@),
    {
        let n: usize = if self.id.len() < 16 { self.id.len() } else { 16 };
        let mut out: Vec<u8> = Vec::new();
        let mut i: usize = 0;
        while i < 16
            invariant
                n == (if self@.len() < 16 { self@.len() as int } else { 16 }),
                i <= 16,
                out@ == uuid_bytes(self@).subrange(0, i as int),
            decreases 16 - i,
        {
            let b = if i >= n {
                0u8
            } else if i < 4 && n >= 4 {
                self.id[3 - i]
            } else if 4 <= i && i < 6 && n >= 6 {
                self.id[9 - i]
            } else if 6 <= i && i < 8 && n >= 8 {
                self.id[13 - i]
            } else {
                self.id[i]
            };
            out.push(b);
            assert(out@ == uuid_bytes(self@).subrange(0, i + 1));
            i = i + 1;
        }
        out
    }

    /// The UUID form of this identifier as 32 upper-case hex digits.
    pub fn as_uuid_string(&self) -> (r: String)
        ensures
            r@ == hex_text(uuid_bytes(self@), true),
    {
        let b = self.uuid_bytes();
        Self::to_hex_string(b.as_slice())
    }

    /// The upper-case hexadecimal text of `bytes`.
    pub fn to_hex_string(bytes: &[u8]) -> (r: String)
        ensures
            r@ == hex_text(bytes@, true),
    {
        let mut out = String::new();
        push_hex(&mut out, bytes, true);
        assert(out@ == hex_text(bytes@, true));
        out
    }

    /// The identifier as upper-case hexadecimal text.
    pub fn to_string(&self) -> (r: String)
        ensures
            r@ == hex_text(self@, true),
    {
        Self::to_hex_string(self.id.as_slice())
    }
}


proof fn lemma_xor_cancel(x: u8, y: u8, z: u8)
    ensures
        x != y ==> x ^ z != y ^ z,
        x != y ==> z ^ x != z ^ y,
{
    assert(x != y ==> x ^ z != y ^ z) by (bit_vector);
    assert(x != y ==> z ^ x != z ^ y) by (bit_vector);
}

proof fn lemma_fold_agree(a: Seq<u8>, b: Seq<u8>, c: int)
    requires
        0 <= c,
        16 * c <= a.len(),
        16 * c <= b.len(),
        forall|i: int| 0 <= i < 16 * c ==> a[i] == b[i],
    ensures
        xor_fold(a, c) == xor_fold(b, c),
    decreases c,
{
    if c > 0 {
        lemma_fold_agree(a, b, c - 1);
        assert forall|j: int| 0 <= j < 16 implies xor_fold(a, c)[j] == xor_fold(b, c)[j] by {
            assert(a[16 * (c - 1) + j] == b[16 * (c - 1) + j]);
        }
        assert(xor_fold(a, c) =~= xor_fold(b, c));
    }
}

proof fn lemma_fold_differ(a: Seq<u8>, b: Seq<u8>, c: int, p: int)
    requires
        0 <= p < 16 * c,
        16 * c <= a.len(),
        a.len() == b.len(),
        a[p] != b[p],
        forall|i: int| 0 <= i < a.len() && i != p ==> a[i] == b[i],
    ensures
        xor_fold(a, c)[p % 16] != xor_fold(b, c)[p % 16],
    decreases c,
{
    let j = p % 16;
    let pa = xor_fold(a, c - 1);
    let pb = xor_fold(b, c - 1);
    if p < 16 * (c - 1) {
        lemma_fold_differ(a, b, c - 1, p);
        assert(a[16 * (c - 1) + j] == b[16 * (c - 1) + j]);
        lemma_xor_cancel(pa[j], pb[j], a[16 * (c - 1) + j]);
    } else {
        assert forall|i: int| 0 <= i < 16 * (c - 1) implies a[i] == b[i] by {}
        lemma_fold_agree(a, b, c - 1);
        assert(16 * (c - 1) + j == p);
        lemma_xor_cancel(a[p], b[p], pa[j]);
    }
}

/// The fallback identifier tells apart two text sections of one length that
/// differ in exactly one byte of the part it folds: the first page, without
/// a trailing partial chunk. (Sections that differ in several bytes may
/// fold alike, as XOR cancels.)
pub proof fn lemma_text_hash_detects_single_change(a: Seq<u8>, b: Seq<u8>, p: int)
    requires
        a.len() == b.len(),
        0 <= p < 16 * ((if a.len() < 4096 { a.len() as int } else { 4096 }) / 16),
        a[p] != b[p],
        forall|i: int| 0 <= i < a.len() && i != p ==> a[i] == b[i],
    ensures
        text_hash(a) != text_hash(b),
{
    let n = if a.len() < 4096 { a.len() as int } else { 4096 };
    let c = n / 16;
    lemma_fold_differ(a, b, c, p);
}

/// A run of notes whose first note is a GNU build-id of at most
/// `MAX_ID_SIZE` bytes yields exactly that note's description.
pub proof fn lemma_first_note_build_id(d: Seq<u8>, desc: Seq<u8>)
    requires
        d.len() >= 12,
        le32(d, 4) == desc.len(),
        le32(d, 8) == NT_GNU_BUILD_ID,
        desc.len() <= MAX_ID_SIZE,
        align4(12 + le32(d, 0)) + desc.len() <= d.len(),
        d.subrange(align4(12 + le32(d, 0)), align4(12 + le32(d, 0)) + desc.len()) == desc,
    ensures
        notes_build_id(d, 0) == Some(desc),
{
}


/// Bytes rendered as upper-case hexadecimal text.
pub struct UpperHex {
    bytes: Vec<u8>,
}

impl View for UpperHex {
    type V = Seq<u8>;

    closed spec fn view(&self) -> Seq<u8> {
        self.bytes@
    }
}

impl UpperHex {
    /// Wraps a copy of `bytes`.
    pub fn new(bytes: &[u8]) -> (r: UpperHex)
        ensures
            r@ == bytes@,
    {
        UpperHex { bytes: copy_range(bytes, 0, bytes.len()) }
    }

    /// Two upper-case hex digits per byte, high nibble first.
    pub fn to_string(&self) -> (r: String)
        ensures
            r@ == hex_text(self@, true),
    {
        ElfId::to_hex_string(self.bytes.as_slice())
    }
}

} // verus!
