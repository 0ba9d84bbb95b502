use vstd::prelude::*;
use crate::minidump_writer::{push_u32, push_u64, u32_le, u64_le};

verus! {

/// The size of an x86-64 processor context record.
pub const AMD64_CONTEXT_SIZE: usize = 1232;

/// The context-record flags: x86-64, with the control, integer, segment and
/// floating-point parts filled in.
pub const AMD64_CONTEXT_FLAGS: u32 = 0x10000f;

/// The general registers of an x86-64 thread, as the kernel reports them.
#[derive(Debug, Clone, Copy, PartialEq, Eq, Structural)]
pub struct GeneralRegisters {
    pub rax: u64,
    pub rcx: u64,
    pub rdx: u64,
    pub rbx: u64,
    pub rsp: u64,
    pub rbp: u64,
    pub rsi: u64,
    pub rdi: u64,
    pub r8: u64,
    pub r9: u64,
    pub r10: u64,
    pub r11: u64,
    pub r12: u64,
    pub r13: u64,
    pub r14: u64,
    pub r15: u64,
    pub rip: u64,
    pub eflags: u64,
    pub cs: u64,
    pub ds: u64,
    pub es: u64,
    pub fs: u64,
    pub gs: u64,
    pub ss: u64,
}

/// The floating-point state of an x86-64 thread, as the kernel reports it.
/// `st_space` holds 128 bytes and `xmm_space` 256.
pub struct FloatRegisters {
    pub cwd: u16,
    pub swd: u16,
    pub ftw: u16,
    pub fop: u16,
    pub rip: u64,
    pub rdp: u64,
    pub mxcsr: u32,
    pub mxcr_mask: u32,
    /// The eight x87 registers, 16 bytes each.
    pub st_space: Vec<u8>,
    /// The sixteen vector registers, 16 bytes each.
    pub xmm_space: Vec<u8>,
}

impl FloatRegisters {
    /// Holds when the register areas have their sizes.
    pub open spec fn wf(&self) -> bool {
        self.st_space@.len() == 128 && self.xmm_space@.len() == 256
    }
}

/// What the dumper captured of a thread.
pub struct ThreadInfo {
    pub gp_regs: GeneralRegisters,
    pub fp_regs: FloatRegisters,
    pub debug_regs: [u64; 8],
    pub stack_pointer: usize,
    /// Thread group id.
    pub tgid: u32,
    /// Parent process id.
    pub parent: u32,
}

/// The little-endian bytes of a 16-bit value.
pub open spec fn u16_le(v: int) -> Seq<u8> {
    seq![(v % 256) as u8, ((v / 256) % 256) as u8]
}

/// `n` zero bytes.
pub open spec fn zeros(n: int) -> Seq<u8> {
    Seq::new(n as nat, |i: int| 0u8)
}

/// The 512-byte floating-point save area: control, status and tag words,
/// last opcode, instruction and data offsets (low 32 bits), MXCSR and its
/// mask, the x87 registers, the vector registers and reserved space.
pub open spec fn float_save_bytes(f: FloatRegisters) -> Seq<u8> {
    u16_le(f.cwd as int) + u16_le(f.swd as int) + seq![(f.ftw % 256) as u8, 0u8] + u16_le(f.fop as int)
        + u32_le((f.rip % 4294967296) as int) + zeros(4) + u32_le((f.rdp % 4294967296) as int) + zeros(4)
        + u32_le(f.mxcsr as int) + u32_le(f.mxcr_mask as int) + f.st_space@ + f.xmm_space@ + zeros(96)
}

/// The segment selectors (low 16 bits) and flags (low 32 bits).
pub open spec fn segment_bytes(g: GeneralRegisters) -> Seq<u8> {
    u16_le((g.cs % 65536) as int) + u16_le((g.ds % 65536) as int) + u16_le((g.es % 65536) as int)
        + u16_le((g.fs % 65536) as int) + u16_le((g.gs % 65536) as int) + u16_le((g.ss % 65536) as int)
        + u32_le((g.eflags % 4294967296) as int)
}

/// Debug registers 0 to 3, 6 and 7.
pub open spec fn debug_bytes(d: Seq<u64>) -> Seq<u8> {
    u64_le(d[0] as int) + u64_le(d[1] as int) + u64_le(d[2] as int) + u64_le(d[3] as int) + u64_le(
        d[6] as int,
    ) + u64_le(d[7] as int)
}

/// The integer registers in record order, then the instruction pointer.
pub open spec fn integer_bytes(g: GeneralRegisters) -> Seq<u8> {
    u64_le(g.rax as int) + u64_le(g.rcx as int) + u64_le(g.rdx as int) + u64_le(g.rbx as int)
        + u64_le(g.rsp as int) + u64_le(g.rbp as int) + u64_le(g.rsi as int) + u64_le(g.rdi as int)
        + u64_le(g.r8 as int) + u64_le(g.r9 as int) + u64_le(g.r10 as int) + u64_le(g.r11 as int)
        + u64_le(g.r12 as int) + u64_le(g.r13 as int) + u64_le(g.r14 as int) + u64_le(g.r15 as int)
        + u64_le(g.rip as int)
}

/// An x86-64 context record: six home words, the flags, MXCSR, the segments
/// and flags, the debug registers, the integer registers, the floating-point
/// save area, and the vector and branch-record space, zeroed.
pub open spec fn context_bytes(flags: u32, g: GeneralRegisters, d: Seq<u64>, f: FloatRegisters) -> Seq<u8> {
    zeros(48) + u32_le(flags as int) + u32_le(f.mxcsr as int) + segment_bytes(g) + debug_bytes(d)
        + integer_bytes(g) + float_save_bytes(f) + zeros(464)
}

/// The context record of a thread whose registers the dumper read.
pub open spec fn amd64_context_bytes(g: GeneralRegisters, d: Seq<u64>, f: FloatRegisters) -> Seq<u8> {
    context_bytes(AMD64_CONTEXT_FLAGS, g, d, f)
}

/// The context-record flags of a record made from a signal context: x86-64,
/// with the control, integer and floating-point parts (no segments beyond
/// those the signal context carries).
pub const UCONTEXT_CONTEXT_FLAGS: u32 = 0x10000b;

/// The number of general registers in an x86-64 signal context.
pub const NGREG: usize = 23;

/// The general registers of an x86-64 signal context, in its order: r8 to
/// r15, rdi, rsi, rbp, rbx, rdx, rax, rcx, rsp, rip, eflags, then cs, gs and
/// fs packed in 16-bit fields of one word, then error, trap number, old mask
/// and cr2.
pub open spec fn regs_from_gregs(gr: Seq<u64>) -> GeneralRegisters {
    GeneralRegisters {
        r8: gr[0],
        r9: gr[1],
        r10: gr[2],
        r11: gr[3],
        r12: gr[4],
        r13: gr[5],
        r14: gr[6],
        r15: gr[7],
        rdi: gr[8],
        rsi: gr[9],
        rbp: gr[10],
        rbx: gr[11],
        rdx: gr[12],
        rax: gr[13],
        rcx: gr[14],
        rsp: gr[15],
        rip: gr[16],
        eflags: gr[17],
        cs: gr[18] % 65536,
        gs: (gr[18] / 65536) % 65536,
        fs: (gr[18] / 4294967296) % 65536,
        ds: 0,
        es: 0,
        ss: 0,
    }
}

/// Eight zero debug registers: a signal context carries none.
pub open spec fn no_debug_regs() -> Seq<u64> {
    Seq::new(8, |i: int| 0u64)
}

/// The context record of the crashing thread, made from its signal context.
pub open spec fn ucontext_context_bytes(gr: Seq<u64>, f: FloatRegisters) -> Seq<u8> {
    context_bytes(UCONTEXT_CONTEXT_FLAGS, regs_from_gregs(gr), no_debug_regs(), f)
}

/// Appends the little-endian bytes of `v`.
pub fn push_u16(out: &mut Vec<u8>, v: u16)
    ensures
        final(out)@ == old(out)@ + u16_le(v as int),
        final(out)@.len() == old(out)@.len() + 2,
{
    out.push((v % 256) as u8);
    out.push((v / 256) as u8);
    assert(final(out)@ =~= old(out)@ + u16_le(v as int));
}

/// Appends `n` zero bytes.
pub fn push_zeros(out: &mut Vec<u8>, n: usize)
    ensures
        final(out)@ == old(out)@ + zeros(n as int),
        final(out)@.len() == old(out)@.len() + n,
{
    let ghost start = out@;
    let mut i: usize = 0;
    while i < n
        invariant
            i <= n,
            out@ == start + zeros(i as int),
            start == old(out)@,
        decreases n - i,
    {
        out.push(0u8);
        assert(start + zeros(i + 1) =~= (start + zeros(i as int)).push(0u8));
        i = i + 1;
    }
}

/// Appends the bytes of `b`.
fn push_all(out: &mut Vec<u8>, b: &Vec<u8>)
    ensures
        final(out)@ == old(out)@ + b@,
        final(out)@.len() == old(out)@.len() + b@.len(),
{
    let ghost start = out@;
    let mut i: usize = 0;
    while i < b.len()
        invariant
            i <= b@.len(),
            out@ == start + b@.subrange(0, i as int),
            start == old(out)@,
        decreases b@.len() - i,
    {
        out.push(b[i]);
        assert(start + b@.subrange(0, i + 1) =~= (start + b@.subrange(0, i as int)).push(b@[i as int]));
        i = i + 1;
    }
    assert(b@.subrange(0, b@.len() as int) == b@);
}

impl ThreadInfo {
    /// The instruction pointer.
    pub fn get_ip(&self) -> (r: u64)
        ensures
            r == self.gp_regs.rip,
    {
        self.gp_regs.rip
    }

    /// The thread's x86-64 context record.
    pub fn get_cpu_context(&self) -> (r: Vec<u8>)
        requires
            self.fp_regs.wf(),
        ensures
            r@ == amd64_context_bytes(self.gp_regs, self.debug_regs@, self.fp_regs),
            r@.len() == AMD64_CONTEXT_SIZE,
    {
        encode_amd64_context(&self.gp_regs, &self.debug_regs, &self.fp_regs)
    }
}

fn push_segments(out: &mut Vec<u8>, g: &GeneralRegisters)
    ensures
        final(out)@ == old(out)@ + segment_bytes(*g),
        final(out)@.len() == old(out)@.len() + 16,
{
    let ghost start = out@;
    push_u16(out, (g.cs % 65536) as u16);
    push_u16(out, (g.ds % 65536) as u16);
    push_u16(out, (g.es % 65536) as u16);
    push_u16(out, (g.fs % 65536) as u16);
    push_u16(out, (g.gs % 65536) as u16);
    push_u16(out, (g.ss % 65536) as u16);
    push_u32(out, (g.eflags % 4294967296) as u32);
    assert(out@ =~= start + segment_bytes(*g));
}

fn push_debug(out: &mut Vec<u8>, d: &[u64; 8])
    ensures
        final(out)@ == old(out)@ + debug_bytes(d@),
        final(out)@.len() == old(out)@.len() + 48,
{
    let ghost start = out@;
    push_u64(out, d[0]);
    push_u64(out, d[1]);
    push_u64(out, d[2]);
    push_u64(out, d[3]);
    push_u64(out, d[6]);
    push_u64(out, d[7]);
    assert(out@ =~= start + debug_bytes(d@));
}

fn push_integers(out: &mut Vec<u8>, g: &GeneralRegisters)
    ensures
        final(out)@ == old(out)@ + integer_bytes(*g),
        final(out)@.len() == old(out)@.len() + 136,
{
    let ghost start = out@;
    push_u64(out, g.rax);
    push_u64(out, g.rcx);
    push_u64(out, g.rdx);
    push_u64(out, g.rbx);
    push_u64(out, g.rsp);
    push_u64(out, g.rbp);
    push_u64(out, g.rsi);
    push_u64(out, g.rdi);
    push_u64(out, g.r8);
    push_u64(out, g.r9);
    push_u64(out, g.r10);
    push_u64(out, g.r11);
    push_u64(out, g.r12);
    push_u64(out, g.r13);
    push_u64(out, g.r14);
    push_u64(out, g.r15);
    push_u64(out, g.rip);
    assert(out@ =~= start + integer_bytes(*g));
}

fn push_float_save(out: &mut Vec<u8>, f: &FloatRegisters)
    requires
        f.wf(),
    ensures
        final(out)@ == old(out)@ + float_save_bytes(*f),
        final(out)@.len() == old(out)@.len() + 512,
{
    let ghost start = out@;
    push_u16(out, f.cwd);
    push_u16(out, f.swd);
    out.push((f.ftw % 256) as u8);
    out.push(0u8);
    push_u16(out, f.fop);
    push_u32(out, (f.rip % 4294967296) as u32);
    push_zeros(out, 4);
    push_u32(out, (f.rdp % 4294967296) as u32);
    push_zeros(out, 4);
    push_u32(out, f.mxcsr);
    push_u32(out, f.mxcr_mask);
    push_all(out, &f.st_space);
    push_all(out, &f.xmm_space);
    push_zeros(out, 96);
    assert(out@ =~= start + float_save_bytes(*f));
}

fn encode_context(flags: u32, g: &GeneralRegisters, d: &[u64; 8], f: &FloatRegisters) -> (r: Vec<u8>)
    requires
        f.wf(),
    ensures
        r@ == context_bytes(flags, *g, d@, *f),
        r@.len() == AMD64_CONTEXT_SIZE,
{
    let mut out: Vec<u8> = Vec::new();
    push_zeros(&mut out, 48);
    assert(out@ == zeros(48));
    assert(out@.len() == 48);
    push_u32(&mut out, flags);
    push_u32(&mut out, f.mxcsr);
    push_segments(&mut out, g);
    push_debug(&mut out, d);
    push_integers(&mut out, g);
    push_float_save(&mut out, f);
    push_zeros(&mut out, 464);
    out
}

/// Encodes an x86-64 context record from a thread's registers.
pub fn encode_amd64_context(g: &GeneralRegisters, d: &[u64; 8], f: &FloatRegisters) -> (r: Vec<u8>)
    requires
        f.wf(),
    ensures
        r@ == amd64_context_bytes(*g, d@, *f),
        r@.len() == AMD64_CONTEXT_SIZE,
{
    encode_context(AMD64_CONTEXT_FLAGS, g, d, f)
}

/// Encodes the crashing thread's context record from its signal context.
pub fn ucontext_cpu_context(gregs: &[u64; 23], fp: &FloatRegisters) -> (r: Vec<u8>)
    requires
        fp.wf(),
    ensures
        r@ == ucontext_context_bytes(gregs@, *fp),
        r@.len() == AMD64_CONTEXT_SIZE,
{
    let csgsfs = gregs[18];
    let g = GeneralRegisters {
        r8: gregs[0],
        r9: gregs[1],
        r10: gregs[2],
        r11: gregs[3],
        r12: gregs[4],
        r13: gregs[5],
        r14: gregs[6],
        r15: gregs[7],
        rdi: gregs[8],
        rsi: gregs[9],
        rbp: gregs[10],
        rbx: gregs[11],
        rdx: gregs[12],
        rax: gregs[13],
        rcx: gregs[14],
        rsp: gregs[15],
        rip: gregs[16],
        eflags: gregs[17],
        cs: csgsfs % 65536,
        gs: (csgsfs / 65536) % 65536,
        fs: (csgsfs / 4294967296) % 65536,
        ds: 0,
        es: 0,
        ss: 0,
    };
    let d: [u64; 8] = [0u64; 8];
    assert(d@ =~= no_debug_regs());
    assert(g == regs_from_gregs(gregs@));
    encode_context(UCONTEXT_CONTEXT_FLAGS, &g, &d, fp)
}

} // verus!
