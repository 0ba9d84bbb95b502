use vstd::prelude::*;
use crate::elf::{le64, read_u64};
use crate::fixed_str::FixedStr;
use crate::line_reader::{split_lines, LineReader};
use crate::mapping::{
    add_mapping, add_to, all_wf, contains, find_mapping, model_of_line, move_entry_first,
    parse_map_line, tag_gate, views, MapModel, MappingInfo,
};

verus! {

/// Why dumping the crashed process failed.
#[derive(Debug, Clone, Copy, PartialEq, Eq, Structural)]
pub enum Error {
    NoValidAuxvEntries,
    InvalidMapping,
    NoValidThreads,
    ThreadsNotSuspended,
    AllThreadsNotResumed,
    InvalidStatus,
    PtraceFailed,
}

/// The auxiliary-vector entry types the dumper understands.
#[derive(Debug, Clone, Copy, PartialEq, Eq, Structural)]
pub enum AtKinds {
    ExecFD,
    ProgramHeaders,
    PHEntrySize,
    PHNum,
    PageSize,
    Base,
    Flags,
    Entry,
    NotElf,
    Uid,
    EUid,
    Gid,
    EGid,
    Platform,
    HardwareCapabilities,
    ClockTick,
    FpuControlWord,
    DCacheBlockSize,
    ICacheBlockSize,
    UCacheBlockSize,
    Secure,
    BasePlatform,
    Random,
    HardwareCaps2,
    ExecPath,
    SysInfo,
    SysInfoEhdr,
}

/// The entry type numbers the dumper understands: 2 to 21, 23 to 27, 32 and 33.
pub open spec fn known_at(v: int) -> bool {
    (2 <= v <= 21) || (23 <= v <= 27) || v == 32 || v == 33
}

/// The slot of the entry point in the auxiliary table.
pub const AT_ENTRY: usize = 9;

/// The slot of the vDSO's address in the auxiliary table.
pub const AT_SYSINFO_EHDR: usize = 33;

/// The size of the auxiliary table: one slot per known type number.
pub const AUXV_SLOTS: usize = 34;

impl AtKinds {
    /// The entry type with number `val`, or `None` for one not understood.
    pub fn from_int(val: u32) -> (r: Option<AtKinds>)
        ensures
            r is Some <==> known_at(val as int),
            r is Some ==> r.unwrap().number() == val,
    {
        match val {
            2 => Some(AtKinds::ExecFD),
            3 => Some(AtKinds::ProgramHeaders),
            4 => Some(AtKinds::PHEntrySize),
            5 => Some(AtKinds::PHNum),
            6 => Some(AtKinds::PageSize),
            7 => Some(AtKinds::Base),
            8 => Some(AtKinds::Flags),
            9 => Some(AtKinds::Entry),
            10 => Some(AtKinds::NotElf),
            11 => Some(AtKinds::Uid),
            12 => Some(AtKinds::EUid),
            13 => Some(AtKinds::Gid),
            14 => Some(AtKinds::EGid),
            15 => Some(AtKinds::Platform),
            16 => Some(AtKinds::HardwareCapabilities),
            17 => Some(AtKinds::ClockTick),
            18 => Some(AtKinds::FpuControlWord),
            19 => Some(AtKinds::DCacheBlockSize),
            20 => Some(AtKinds::ICacheBlockSize),
            21 => Some(AtKinds::UCacheBlockSize),
            23 => Some(AtKinds::Secure),
            24 => Some(AtKinds::BasePlatform),
            25 => Some(AtKinds::Random),
            26 => Some(AtKinds::HardwareCaps2),
            27 => Some(AtKinds::ExecPath),
            32 => Some(AtKinds::SysInfo),
            33 => Some(AtKinds::SysInfoEhdr),
            _ => None,
        }
    }

    /// The entry type's number in the auxiliary vector.
    pub open spec fn number(&self) -> u32 {
        match self {
            AtKinds::ExecFD => 2,
            AtKinds::ProgramHeaders => 3,
            AtKinds::PHEntrySize => 4,
            AtKinds::PHNum => 5,
            AtKinds::PageSize => 6,
            AtKinds::Base => 7,
            AtKinds::Flags => 8,
            AtKinds::Entry => 9,
            AtKinds::NotElf => 10,
            AtKinds::Uid => 11,
            AtKinds::EUid => 12,
            AtKinds::Gid => 13,
            AtKinds::EGid => 14,
            AtKinds::Platform => 15,
            AtKinds::HardwareCapabilities => 16,
            AtKinds::ClockTick => 17,
            AtKinds::FpuControlWord => 18,
            AtKinds::DCacheBlockSize => 19,
            AtKinds::ICacheBlockSize => 20,
            AtKinds::UCacheBlockSize => 21,
            AtKinds::Secure => 23,
            AtKinds::BasePlatform => 24,
            AtKinds::Random => 25,
            AtKinds::HardwareCaps2 => 26,
            AtKinds::ExecPath => 27,
            AtKinds::SysInfo => 32,
            AtKinds::SysInfoEhdr => 33,
        }
    }
}

/// The auxiliary table after reading the entries of `bytes` from entry `i`
/// on: 16-byte entries of a type word and a value word, a later entry of a
/// type overriding an earlier one, entries of unknown type skipped, a
/// trailing partial entry ignored.
pub open spec fn auxv_after(table: Seq<Option<usize>>, bytes: Seq<u8>, i: int) -> Seq<Option<usize>>
    decreases bytes.len() - 16 * i,
{
    if i < 0 || 16 * i + 16 > bytes.len() {
        table
    } else {
        let kind = le64(bytes, 16 * i) % 4294967296;
        let val = le64(bytes, 16 * i + 8);
        if known_at(kind) {
            auxv_after(table.update(kind, Some(val as usize)), bytes, i + 1)
        } else {
            auxv_after(table, bytes, i + 1)
        }
    }
}

/// Holds when some whole entry of `bytes` has a known type.
pub open spec fn has_known_entry(bytes: Seq<u8>) -> bool {
    exists|i: int| 0 <= i && 16 * i + 16 <= bytes.len() && known_at(#[trigger] (le64(bytes, 16 * i) % 4294967296))
}

/// The records a memory-map table gives, line by line, before entry-point
/// reordering: lines that do not parse are skipped, the others added with
/// `add_to`.
pub open spec fn fold_map_lines(lines: Seq<Seq<u8>>, gate: Option<usize>) -> Seq<MapModel>
    decreases lines.len(),
{
    if lines.len() == 0 {
        Seq::empty()
    } else {
        let acc = fold_map_lines(lines.drop_last(), gate);
        match parse_map_line(lines.last()) {
            Some(m) => add_to(acc, tag_gate(model_of_line(m), gate)),
            None => acc,
        }
    }
}

/// How many of `lines` do not parse as map lines.
pub open spec fn unparsed_lines(lines: Seq<Seq<u8>>) -> int
    decreases lines.len(),
{
    if lines.len() == 0 {
        0
    } else {
        unparsed_lines(lines.drop_last()) + if parse_map_line(lines.last()) is None { 1int } else { 0int }
    }
}

/// The longest line the dumper reads from a process table, plus one.
pub const LINE_CAPACITY: usize = 512;

/// The lines a reader with a buffer of `LINE_CAPACITY` bytes hands out for `text`.
pub open spec fn read_lines(text: Seq<u8>) -> Seq<Seq<u8>> {
    let all = split_lines(text);
    if exists|i: int| 0 <= i < all.len() && (#[trigger] all[i]).len() >= LINE_CAPACITY {
        let i = choose|i: int| 0 <= i < all.len() && (#[trigger] all[i]).len() >= LINE_CAPACITY
            && forall|j: int| 0 <= j < i ==> (#[trigger] all[j]).len() < LINE_CAPACITY;
        all.subrange(0, i)
    } else {
        all
    }
}

/// What one attempt to suspend a thread found.
#[derive(Debug, Clone, Copy, PartialEq, Eq, Structural)]
pub struct SuspendOutcome {
    /// The tracer attached to the thread.
    pub attached: bool,
    /// The thread's stack pointer, when its registers could be read.
    pub stack_pointer: Option<u64>,
}

/// Holds when a suspended thread stays in the dump: it was attached and its
/// stack pointer reads as valid (not zero, as in trusted sandbox threads).
pub open spec fn keeps_thread(o: SuspendOutcome) -> bool {
    o.attached && match o.stack_pointer {
        Some(sp) => sp != 0,
        None => false,
    }
}

/// The state of a dump of a crashed process: what was read of its threads,
/// memory mappings and auxiliary vector, and whether its threads are suspended.
pub struct PTraceDumper {
    pub crash_address: usize,
    pub crash_signal: i32,
    pub crash_signal_code: i32,
    pub pid: u32,
    pub crash_thread: i32,
    /// The thread ids, `None` for threads dropped from the dump.
    pub threads: Vec<Option<u32>>,
    pub mappings: Vec<MappingInfo>,
    pub auxv: Vec<Option<usize>>,
    pub threads_suspended: bool,
    /// How many memory-map lines were skipped as malformed.
    pub dropped_mappings: usize,
}

impl PTraceDumper {
    pub open spec fn wf(&self) -> bool {
        all_wf(self.mappings@) && self.auxv@.len() == AUXV_SLOTS
    }

    /// A dumper for process `pid`, crashed with `signal` and `code` at
    /// `address` on thread `tid`.
    pub fn new(pid: u32, address: usize, signal: i32, code: i32, tid: i32) -> (r: Self)
        ensures
            r.wf(),
            r.crash_address == address && r.crash_signal == signal && r.crash_signal_code == code,
            r.pid == pid && r.crash_thread == tid,
            r.threads@ == Seq::<Option<u32>>::empty(),
            r.mappings@ == Seq::<MappingInfo>::empty(),
            r.dropped_mappings == 0,
            forall|k: int| 0 <= k < AUXV_SLOTS ==> r.auxv@[k] is None,
            !r.threads_suspended,
    {
        let mut auxv: Vec<Option<usize>> = Vec::new();
        let mut k: usize = 0;
        while k < AUXV_SLOTS
            invariant
                k <= AUXV_SLOTS,
                auxv@.len() == k,
                forall|j: int| 0 <= j < k ==> auxv@[j] is None,
            decreases AUXV_SLOTS - k,
        {
            auxv.push(None);
            k = k + 1;
        }
        PTraceDumper {
            crash_address: address,
            crash_signal: signal,
            crash_signal_code: code,
            pid,
            crash_thread: tid,
            threads: Vec::new(),
            mappings: Vec::new(),
            auxv,
            threads_suspended: false,
            dropped_mappings: 0,
        }
    }

    /// Whether the dump is of a process that is no longer running: never here.
    pub fn is_post_mortem(&self) -> (r: bool)
        ensures
            !r,
    {
        false
    }

    /// Records where the crash happened.
    pub fn set_crash_address(&mut self, addr: usize)
        ensures
            final(self).crash_address == addr,
            final(self).threads@ == old(self).threads@,
            final(self).mappings@ == old(self).mappings@,
            final(self).auxv@ == old(self).auxv@,
            final(self).threads_suspended == old(self).threads_suspended,
    {
        self.crash_address = addr;
    }

    /// Reads the process's auxiliary vector from the bytes of its table.
    /// Fails when no entry has a known type.
    pub fn read_auxv(&mut self, bytes: &[u8]) -> (r: Result<(), Error>)
        requires
            old(self).wf(),
        ensures
            final(self).wf(),
            final(self).auxv@ == auxv_after(old(self).auxv@, bytes@, 0),
            r is Ok <==> has_known_entry(bytes@),
            final(self).mappings@ == old(self).mappings@,
            final(self).threads@ == old(self).threads@,
    {
        let n = bytes.len() / 16;
        let mut i: usize = 0;
        let mut found = false;
        while i < n
            invariant
                n == bytes@.len() / 16,
                i <= n,
                self.auxv@.len() == AUXV_SLOTS,
                bytes@.len() <= usize::MAX,
                auxv_after(self.auxv@, bytes@, i as int) == auxv_after(old(self).auxv@, bytes@, 0),
                found <==> exists|j: int| 0 <= j < i && known_at(#[trigger] (le64(bytes@, 16 * j) % 4294967296)),
                self.mappings@ == old(self).mappings@,
                self.threads@ == old(self).threads@,
            decreases n - i,
        {
            proof {
                assert(16 * i + 16 <= bytes@.len()) by (nonlinear_arith)
                    requires i < n, n == bytes@.len() / 16;
            }
            let kind = read_u64(bytes, 16 * i) % 4294967296;
            let val = read_u64(bytes, 16 * i + 8);
            let known = AtKinds::from_int(kind as u32).is_some();
            if known {
                self.auxv.set(kind as usize, Some(val as usize));
                found = true;
            }
            i = i + 1;
        }
        proof {
            if has_known_entry(bytes@) {
                let j = choose|j: int| 0 <= j && 16 * j + 16 <= bytes@.len() && known_at(#[trigger] (le64(bytes@, 16 * j) % 4294967296));
                assert(j < n);
            }
        }
        if found { Ok(()) } else { Err(Error::NoValidAuxvEntries) }
    }

    /// Records the process's threads from the names in its task directory,
    /// skipping names that are not thread ids and repeats of the id just read.
    pub fn enumerate_threads(&mut self, names: &Vec<Vec<u8>>)
        ensures
            final(self).auxv@ == old(self).auxv@,
            final(self).mappings@ == old(self).mappings@,
            final(self).threads_suspended == old(self).threads_suspended,
            final(self).threads@ == old(self).threads@ + scan_tids(names_view(names@)).0,
    {
        let mut last: Option<u32> = None;
        let mut i: usize = 0;
        let ghost start = self.threads@;
        while i < names.len()
            invariant
                i <= names@.len(),
                start == old(self).threads@,
                self.auxv@ == old(self).auxv@,
                self.mappings@ == old(self).mappings@,
                self.threads_suspended == old(self).threads_suspended,
                self.threads@ == start + scan_tids(names_view(names@).subrange(0, i as int)).0,
                last == scan_tids(names_view(names@).subrange(0, i as int)).1,
            decreases names@.len() - i,
        {
            proof {
                let nv = names_view(names@);
                assert(nv.subrange(0, i + 1).drop_last() == nv.subrange(0, i as int));
                assert(nv.subrange(0, i + 1).last() == names@[i as int]@);
            }
            match parse_decimal_u32(names[i].as_slice()) {
                Some(tid) => {
                    if last != Some(tid) {
                        last = Some(tid);
                        self.threads.push(Some(tid));
                    }
                },
                None => {},
            }
            i = i + 1;
        }
        assert(names_view(names@).subrange(0, names@.len() as int) == names_view(names@));
    }

    /// Records the process's mappings from the text of its memory-map table:
    /// each line that parses is added with `add_mapping`, the vDSO named from
    /// the auxiliary vector, and the mapping with the entry point moved first.
    /// Lines that do not parse are counted in `dropped_mappings`.
    pub fn enumerate_mappings(&mut self, text: Vec<u8>)
        requires
            old(self).wf(),
            old(self).mappings@.len() == 0,
            old(self).dropped_mappings == 0,
        ensures
            final(self).wf(),
            final(self).dropped_mappings == unparsed_lines(read_lines(text@)),
            final(self).auxv@ == old(self).auxv@,
            final(self).threads@ == old(self).threads@,
            ({
                let gate = old(self).auxv@[AT_SYSINFO_EHDR as int];
                let listed = fold_map_lines(read_lines(text@), gate);
                match old(self).auxv@[AT_ENTRY as int] {
                    None => views(final(self).mappings@) == listed,
                    Some(ep) => if exists|i: int| 0 <= i < listed.len() && contains(listed[i].start, listed[i].size, ep as int) {
                        exists|i: int| 0 <= i < listed.len()
                            && contains(listed[i].start, listed[i].size, ep as int)
                            && (forall|j: int| 0 <= j < i ==> !contains(listed[j].start, listed[j].size, ep as int))
                            && views(final(self).mappings@) == crate::mapping::moved_to_front(listed, i)
                    } else {
                        views(final(self).mappings@) == listed
                    },
                }
            }),
    {
        let gate = self.auxv[AT_SYSINFO_EHDR];
        let entry = self.auxv[AT_ENTRY];
        let mut reader: LineReader<512> = LineReader::new(text);
        let lines = reader.read_all();
        let ghost all = split_lines(text@);
        proof {
            lemma_read_lines(all, lines@.len() as int);
        }
        let mut i: usize = 0;
        while i < lines.len()
            invariant
                i <= lines@.len(),
                all_wf(self.mappings@),
                self.auxv@.len() == AUXV_SLOTS,
                self.auxv@ == old(self).auxv@,
                self.threads@ == old(self).threads@,
                gate == old(self).auxv@[AT_SYSINFO_EHDR as int],
                lines@.len() <= all.len(),
                all == split_lines(text@),
                read_lines(text@) == all.subrange(0, lines@.len() as int),
                forall|k: int| 0 <= k < lines@.len() ==> (#[trigger] lines@[k])@ == all[k],
                views(self.mappings@) == fold_map_lines(all.subrange(0, i as int), gate),
                self.dropped_mappings == unparsed_lines(all.subrange(0, i as int)),
                unparsed_lines(all.subrange(0, i as int)) <= i,
            decreases lines@.len() - i,
        {
            let ghost before = all.subrange(0, i as int);
            let ghost after = all.subrange(0, i + 1);
            proof {
                assert(after.drop_last() == before);
                assert(after.last() == lines@[i as int]@);
            }
            match MappingInfo::parse_bytes(lines[i].as_bytes()) {
                Ok(nfo) => {
                    add_mapping(&mut self.mappings, nfo, gate);
                },
                Err(_) => {
                    self.dropped_mappings = self.dropped_mappings + 1;
                },
            }
            i = i + 1;
        }
        proof {
            assert(all.subrange(0, lines@.len() as int) == read_lines(text@));
        }
        let ghost listed = self.mappings@;
        move_entry_first(&mut self.mappings, entry);
        proof {
            match entry {
                None => {},
                Some(ep) => {
                    let vl = views(listed);
                    if exists|i: int| 0 <= i < listed.len() && contains(listed[i].start_addr as int, listed[i].size as int, ep as int) {
                        let i = choose|i: int| 0 <= i < listed.len() && contains(listed[i].start_addr as int, listed[i].size as int, ep as int)
                            && (forall|j: int| 0 <= j < i ==> !contains(listed[j].start_addr as int, listed[j].size as int, ep as int))
                            && self.mappings@ == crate::mapping::moved_to_front(listed, i);
                        assert(views(self.mappings@) =~= crate::mapping::moved_to_front(vl, i));
                        assert(contains(vl[i].start, vl[i].size, ep as int));
                        assert forall|j: int| 0 <= j < i implies !contains(vl[j].start, vl[j].size, ep as int) by {
                            assert(vl[j] == listed[j]@);
                        }
                    } else {
                        assert forall|i: int| 0 <= i < vl.len() implies !contains(vl[i].start, vl[i].size, ep as int) by {
                            assert(vl[i] == listed[i]@);
                        }
                    }
                },
            }
        }
    }

    /// The index of the first mapping that holds `address`.
    pub fn find_mapping_no_bias(&self, address: usize) -> (r: Option<usize>)
        ensures
            match r {
                Some(i) => i < self.mappings@.len() && contains(
                    self.mappings@[i as int].start_addr as int,
                    self.mappings@[i as int].size as int,
                    address as int,
                ),
                None => forall|j: int|
                    0 <= j < self.mappings@.len() ==> !contains(
                        self.mappings@[j].start_addr as int,
                        self.mappings@[j].size as int,
                        address as int,
                    ),
            },
    {
        find_mapping(&self.mappings, address)
    }

    /// Drops from the dump each thread whose suspension failed, given what
    /// the attempt on each listed thread found, and marks the threads
    /// suspended. Fails when no thread is left.
    pub fn suspend_threads(&mut self, outcomes: &Vec<SuspendOutcome>) -> (r: Result<(), Error>)
        requires
            outcomes@.len() == old(self).threads@.len(),
        ensures
            final(self).threads_suspended,
            final(self).threads@.len() == old(self).threads@.len(),
            old(self).threads_suspended ==> final(self).threads@ == old(self).threads@ && r is Ok,
            !old(self).threads_suspended ==> forall|k: int| 0 <= k < old(self).threads@.len() ==> #[trigger] final(self).threads@[k] == (
                if keeps_thread(outcomes@[k]) { old(self).threads@[k] } else { None }),
            !old(self).threads_suspended ==> (r is Ok <==> exists|k: int| 0 <= k < final(self).threads@.len() && (#[trigger] final(self).threads@[k]) is Some),
            !old(self).threads_suspended ==> (r is Err ==> r == Err::<(), Error>(Error::NoValidThreads)),
            final(self).mappings@ == old(self).mappings@,
            final(self).auxv@ == old(self).auxv@,
    {
        if self.threads_suspended {
            return Ok(());
        }
        let n = self.threads.len();
        let mut any = false;
        let mut k: usize = 0;
        while k < n
            invariant
                n == self.threads@.len(),
                n == old(self).threads@.len(),
                n == outcomes@.len(),
                k <= n,
                forall|j: int| 0 <= j < k ==> #[trigger] self.threads@[j] == (
                    if keeps_thread(outcomes@[j]) { old(self).threads@[j] } else { None }),
                forall|j: int| k <= j < n ==> #[trigger] self.threads@[j] == old(self).threads@[j],
                self.mappings@ == old(self).mappings@,
                self.auxv@ == old(self).auxv@,
                !self.threads_suspended,
            decreases n - k,
        {
            let o = outcomes[k];
            let keep = o.attached && match o.stack_pointer {
                Some(sp) => sp != 0,
                None => false,
            };
            if !keep {
                self.threads.set(k, None);
            }
            k = k + 1;
        }
        let mut j: usize = 0;
        while j < n
            invariant
                j <= n,
                n == self.threads@.len(),
                any <==> exists|m: int| 0 <= m < j && (#[trigger] self.threads@[m]) is Some,
            decreases n - j,
        {
            if self.threads[j].is_some() {
                any = true;
            }
            j = j + 1;
        }
        self.threads_suspended = true;
        if any { Ok(()) } else { Err(Error::NoValidThreads) }
    }

    /// The thread ids to detach from when resuming: those still in the dump, in order.
    pub fn threads_to_resume(&self) -> (r: Vec<u32>)
        ensures
            r@ == present_ids(self.threads@),
    {
        let mut out: Vec<u32> = Vec::new();
        let mut k: usize = 0;
        while k < self.threads.len()
            invariant
                k <= self.threads@.len(),
                out@ == present_ids(self.threads@.subrange(0, k as int)),
            decreases self.threads@.len() - k,
        {
            proof {
                assert(self.threads@.subrange(0, k + 1).drop_last() == self.threads@.subrange(0, k as int));
            }
            if let Some(t) = self.threads[k] {
                out.push(t);
            }
            k = k + 1;
        }
        assert(self.threads@.subrange(0, k as int) == self.threads@);
        out
    }

    /// Marks the threads resumed, given whether detaching from each thread
    /// of `threads_to_resume` succeeded. Fails when the threads were not
    /// suspended, or when any detach failed.
    pub fn resume_threads(&mut self, detached: &Vec<bool>) -> (r: Result<(), Error>)
        ensures
            !old(self).threads_suspended ==> r == Err::<(), Error>(Error::ThreadsNotSuspended) && *final(self) == *old(self),
            old(self).threads_suspended ==> !final(self).threads_suspended && (r is Ok <==> forall|i: int| 0 <= i < detached@.len() ==> #[trigger] detached@[i])
                && (r is Err ==> r == Err::<(), Error>(Error::AllThreadsNotResumed)),
            final(self).threads@ == old(self).threads@,
            final(self).mappings@ == old(self).mappings@,
            final(self).auxv@ == old(self).auxv@,
    {
        if !self.threads_suspended {
            return Err(Error::ThreadsNotSuspended);
        }
        let mut all = true;
        let mut i: usize = 0;
        while i < detached.len()
            invariant
                i <= detached@.len(),
                all <==> forall|j: int| 0 <= j < i ==> #[trigger] detached@[j],
            decreases detached@.len() - i,
        {
            if !detached[i] {
                all = false;
            }
            i = i + 1;
        }
        self.threads_suspended = false;
        if all { Ok(()) } else { Err(Error::AllThreadsNotResumed) }
    }

    /// Nothing to adjust after suspension on this platform.
    pub fn late_init(&mut self) -> (r: Result<(), Error>)
        ensures
            r is Ok,
            *final(self) == *old(self),
    {
        Ok(())
    }

    /// The stack range to copy for a thread whose stack pointer is
    /// `stack_pointer`: from the start of its page, up to 32 KiB, inside the
    /// mapping that holds that page start. `None` when no mapping does.
    pub fn get_stack_info(&self, stack_pointer: usize, page_size: usize) -> (r: Option<(usize, usize)>)
        requires
            page_size > 0,
            self.wf(),
        ensures
            ({
                let base = stack_pointer - stack_pointer % page_size;
                match r {
                    Some((start, len)) => start == base && exists|i: int| 0 <= i < self.mappings@.len()
                        && contains(self.mappings@[i].start_addr as int, self.mappings@[i].size as int, base)
                        && len == (if self.mappings@[i].start_addr + self.mappings@[i].size - base < 32768 {
                            self.mappings@[i].start_addr + self.mappings@[i].size - base
                        } else {
                            32768
                        }),
                    None => forall|j: int| 0 <= j < self.mappings@.len() ==> !contains(
                        self.mappings@[j].start_addr as int,
                        self.mappings@[j].size as int,
                        base,
                    ),
                }
            }),
    {
        proof {
            assert(stack_pointer % page_size <= stack_pointer) by (nonlinear_arith)
                requires page_size > 0;
        }
        let base = stack_pointer - stack_pointer % page_size;
        match find_mapping(&self.mappings, base) {
            Some(i) => {
                let m = &self.mappings[i];
                assert(self.mappings@[i as int].wf());
                let rest = m.start_addr + m.size - base;
                let len = if rest < 32768 { rest } else { 32768 };
                Some((base, len))
            },
            None => None,
        }
    }

    /// Sanitizes a copy of a thread's stack in place; `offset` is where the
    /// stack pointer lies in the copy.
    pub fn sanitize_stack(&self, stack: &mut Vec<u8>, offset: usize)
        ensures
            final(stack)@ == crate::sanitize::sanitized(old(stack)@, offset as int, self.mappings@),
    {
        crate::sanitize::sanitize_stack(stack, offset, &self.mappings);
    }
}

/// The bytes of each name.
pub open spec fn names_view(names: Seq<Vec<u8>>) -> Seq<Seq<u8>> {
    names.map_values(|n: Vec<u8>| n@)
}

/// The thread id a task-directory name stands for, if it is one.
pub open spec fn tid_of(name: Seq<u8>) -> Option<u32> {
    if all_digits(name) && decimal_value(name) <= u32::MAX {
        Some(decimal_value(name) as u32)
    } else {
        None
    }
}

/// The thread ids read from task-directory names, each repeat of the id just
/// read skipped, with the last id read.
pub open spec fn scan_tids(names: Seq<Seq<u8>>) -> (Seq<Option<u32>>, Option<u32>)
    decreases names.len(),
{
    if names.len() == 0 {
        (Seq::empty(), None)
    } else {
        let (acc, last) = scan_tids(names.drop_last());
        match tid_of(names.last()) {
            Some(t) => if last == Some(t) {
                (acc, last)
            } else {
                (acc.push(Some(t)), Some(t))
            },
            None => (acc, last),
        }
    }
}

/// The ids of the threads still in the dump, in order.
pub open spec fn present_ids(s: Seq<Option<u32>>) -> Seq<u32>
    decreases s.len(),
{
    if s.len() == 0 {
        Seq::empty()
    } else {
        match s.last() {
            Some(t) => present_ids(s.drop_last()).push(t),
            None => present_ids(s.drop_last()),
        }
    }
}

/// What the reader hands out is `read_lines`.
proof fn lemma_read_lines(all: Seq<Seq<u8>>, n: int)
    requires
        0 <= n <= all.len(),
        forall|i: int| 0 <= i < n ==> (#[trigger] all[i]).len() < LINE_CAPACITY,
        n < all.len() ==> all[n].len() >= LINE_CAPACITY,
    ensures
        ({
            let r = if exists|i: int| 0 <= i < all.len() && (#[trigger] all[i]).len() >= LINE_CAPACITY {
                let i = choose|i: int| 0 <= i < all.len() && (#[trigger] all[i]).len() >= LINE_CAPACITY
                    && forall|j: int| 0 <= j < i ==> (#[trigger] all[j]).len() < LINE_CAPACITY;
                all.subrange(0, i)
            } else {
                all
            };
            r == all.subrange(0, n)
        }),
{
    if n < all.len() {
        assert(all[n].len() >= LINE_CAPACITY);
        let i = choose|i: int| 0 <= i < all.len() && (#[trigger] all[i]).len() >= LINE_CAPACITY
            && forall|j: int| 0 <= j < i ==> (#[trigger] all[j]).len() < LINE_CAPACITY;
        if i < n {
            assert(all[i].len() < LINE_CAPACITY);
        }
        if i > n {
            assert(all[n].len() < LINE_CAPACITY);
        }
    } else {
        assert(all.subrange(0, n) == all);
    }
}

/// The value written by the decimal digits `s`, most significant first.
pub open spec fn decimal_value(s: Seq<u8>) -> int
    decreases s.len(),
{
    if s.len() == 0 {
        0
    } else {
        decimal_value(s.drop_last()) * 10 + (s.last() - 48)
    }
}

/// Holds for a non-empty run of ASCII digits.
pub open spec fn all_digits(s: Seq<u8>) -> bool {
    s.len() > 0 && forall|i: int| 0 <= i < s.len() ==> 48 <= #[trigger] s[i] <= 57
}

/// The number a run of decimal digits writes, or `None` when `s` is empty,
/// holds another byte, or writes a number that does not fit in 32 bits.
pub fn parse_decimal_u32(s: &[u8]) -> (r: Option<u32>)
    ensures
        match r {
            Some(v) => all_digits(s@) && v == decimal_value(s@),
            None => !(all_digits(s@) && decimal_value(s@) <= u32::MAX),
        },
{
    if s.len() == 0 {
        return None;
    }
    let mut acc: u64 = 0;
    let mut i: usize = 0;
    while i < s.len()
        invariant
            i <= s@.len(),
            forall|k: int| 0 <= k < i ==> 48 <= #[trigger] s@[k] <= 57,
            acc == decimal_value(s@.subrange(0, i as int)),
            acc <= u32::MAX,
        decreases s@.len() - i,
    {
        let b = s[i];
        if b < 48 || b > 57 {
            return None;
        }
        proof {
            let next = s@.subrange(0, i + 1);
            assert(next.drop_last() == s@.subrange(0, i as int));
        }
        let next = acc * 10 + (b - 48) as u64;
        if next > u32::MAX as u64 {
            proof {
                lemma_decimal_prefix(s@, i + 1);
            }
            return None;
        }
        acc = next;
        i = i + 1;
    }
    assert(s@.subrange(0, s@.len() as int) == s@);
    Some(acc as u32)
}

/// With digits only, a prefix's value never exceeds the whole's.
proof fn lemma_decimal_prefix(s: Seq<u8>, n: int)
    requires
        0 <= n <= s.len(),
    ensures
        all_digits(s) ==> decimal_value(s.subrange(0, n)) <= decimal_value(s),
    decreases s.len() - n,
{
    if n < s.len() && all_digits(s) {
        lemma_decimal_prefix(s, n + 1);
        let p = s.subrange(0, n + 1);
        assert(p.drop_last() == s.subrange(0, n));
        lemma_decimal_nonneg(s.subrange(0, n));
    } else if n == s.len() {
        assert(s.subrange(0, n) == s);
    }
}

proof fn lemma_decimal_nonneg(s: Seq<u8>)
    requires
        forall|i: int| 0 <= i < s.len() ==> 48 <= #[trigger] s[i] <= 57,
    ensures
        decimal_value(s) >= 0,
    decreases s.len(),
{
    if s.len() > 0 {
        let t = s.drop_last();
        assert forall|i: int| 0 <= i < t.len() implies 48 <= #[trigger] t[i] <= 57 by {
            assert(t[i] == s[i]);
        }
        lemma_decimal_nonneg(t);
    }
}

/// Holds when `line` begins with `key`.
pub open spec fn has_key(line: Seq<u8>, key: Seq<u8>) -> bool {
    key.len() <= line.len() && line.subrange(0, key.len() as int) == key
}

/// The ids read so far from a thread's status lines: a `Tgid:\t` line sets
/// the group id and a `PPid:\t` line the parent id (to `None` when the rest
/// of the line is no id), until both are known.
pub open spec fn status_scan(lines: Seq<Seq<u8>>) -> (Option<u32>, Option<u32>)
    decreases lines.len(),
{
    if lines.len() == 0 {
        (None, None)
    } else {
        let (t, p) = status_scan(lines.drop_last());
        let l = lines.last();
        if t is Some && p is Some {
            (t, p)
        } else if has_key(l, tgid_key()) {
            (tid_of(l.subrange(6, l.len() as int)), p)
        } else if has_key(l, ppid_key()) {
            (t, tid_of(l.subrange(6, l.len() as int)))
        } else {
            (t, p)
        }
    }
}

/// The thread-group and parent ids in the text of a thread's status table,
/// from its `Tgid:\t` and `PPid:\t` lines; fails when either is missing or
/// not a number.
#[verifier::rlimit(40)]
pub fn get_thread_info(status: Vec<u8>) -> (r: Result<(u32, u32), Error>)
    ensures
        match status_scan(read_lines(status@)) {
            (Some(t), Some(p)) => r == Ok::<(u32, u32), Error>((t, p)),
            _ => r == Err::<(u32, u32), Error>(Error::InvalidStatus),
        },
{
    let ghost text = status@;
    let mut reader: LineReader<512> = LineReader::new(status);
    let lines = reader.read_all();
    proof {
        lemma_read_lines(split_lines(text), lines@.len() as int);
    }
    let tgid_prefix: Vec<u8> = vec![84u8, 103u8, 105u8, 100u8, 58u8, 9u8];
    let ppid_prefix: Vec<u8> = vec![80u8, 80u8, 105u8, 100u8, 58u8, 9u8];
    assert(tgid_prefix@ == tgid_key());
    assert(ppid_prefix@ == ppid_key());
    let mut tgid: Option<u32> = None;
    let mut ppid: Option<u32> = None;
    let mut i: usize = 0;
    while i < lines.len()
        invariant
            i <= lines@.len(),
            tgid_prefix@ == tgid_key(),
            ppid_prefix@ == ppid_key(),
            read_lines(text) == split_lines(text).subrange(0, lines@.len() as int),
            forall|k: int| 0 <= k < lines@.len() ==> (#[trigger] lines@[k])@ == split_lines(text)[k],
            lines@.len() <= split_lines(text).len(),
            (tgid, ppid) == status_scan(read_lines(text).subrange(0, i as int)),
        decreases lines@.len() - i,
    {
        let line = lines[i].as_bytes();
        proof {
            let rl = read_lines(text);
            assert(rl[i as int] == line@);
            assert(rl.subrange(0, i + 1).drop_last() == rl.subrange(0, i as int));
            assert(rl.subrange(0, i + 1).last() == line@);
        }
        if !(tgid.is_some() && ppid.is_some()) {
            if starts_with(line, tgid_prefix.as_slice()) {
                tgid = parse_decimal_u32(&line[6..line.len()]);
            } else if starts_with(line, ppid_prefix.as_slice()) {
                ppid = parse_decimal_u32(&line[6..line.len()]);
            }
        }
        i = i + 1;
    }
    assert(read_lines(text).subrange(0, lines@.len() as int) == read_lines(text));
    match (tgid, ppid) {
        (Some(t), Some(p)) => Ok((t, p)),
        _ => Err(Error::InvalidStatus),
    }
}

/// `Tgid:` and a tab.
pub open spec fn tgid_key() -> Seq<u8> {
    seq![84u8, 103u8, 105u8, 100u8, 58u8, 9u8]
}

/// `PPid:` and a tab.
pub open spec fn ppid_key() -> Seq<u8> {
    seq![80u8, 80u8, 105u8, 100u8, 58u8, 9u8]
}

/// Holds when `s` begins with `prefix`.
pub fn starts_with(s: &[u8], prefix: &[u8]) -> (r: bool)
    ensures
        r == (prefix@.len() <= s@.len() && s@.subrange(0, prefix@.len() as int) == prefix@),
{
    if prefix.len() > s.len() {
        return false;
    }
    let mut i: usize = 0;
    while i < prefix.len()
        invariant
            i <= prefix@.len() <= s@.len(),
            forall|k: int| 0 <= k < i ==> s@[k] == prefix@[k],
        decreases prefix@.len() - i,
    {
        if s[i] != prefix[i] {
            assert(s@.subrange(0, prefix@.len() as int)[i as int] != prefix@[i as int]);
            return false;
        }
        i = i + 1;
    }
    assert(s@.subrange(0, prefix@.len() as int) == prefix@);
    true
}

} // verus!
