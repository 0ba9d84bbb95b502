use crash_capture::page_vec::{Allocator, PageVec};
use crash_capture::thread_info::{ucontext_cpu_context, FloatRegisters, GeneralRegisters, ThreadInfo, AMD64_CONTEXT_SIZE};

fn regs() -> GeneralRegisters {
    GeneralRegisters {
        rax: 1,
        rcx: 2,
        rdx: 3,
        rbx: 4,
        rsp: 0x7ffd_0000_1000,
        rbp: 6,
        rsi: 7,
        rdi: 8,
        r8: 9,
        r9: 10,
        r10: 11,
        r11: 12,
        r12: 13,
        r13: 14,
        r14: 15,
        r15: 16,
        rip: 0x40_1234,
        eflags: 0x246,
        cs: 0x33,
        ds: 0,
        es: 0,
        fs: 0,
        gs: 0,
        ss: 0x2b,
    }
}

fn u64_at(b: &[u8], o: usize) -> u64 {
    u64::from_le_bytes(b[o..o + 8].try_into().unwrap())
}

#[test]
fn amd64_context_layout() {
    let info = ThreadInfo {
        gp_regs: regs(),
        fp_regs: FloatRegisters {
            cwd: 0x37f,
            swd: 0,
            ftw: 0xff,
            fop: 0,
            rip: 0,
            rdp: 0,
            mxcsr: 0x1f80,
            mxcr_mask: 0xffff,
            st_space: vec![0; 128],
            xmm_space: vec![0xab; 256],
        },
        debug_regs: [100, 101, 102, 103, 104, 105, 106, 107],
        stack_pointer: 0x7ffd_0000_1000,
        tgid: 1,
        parent: 0,
    };
    let ctx = info.get_cpu_context();
    assert_eq!(ctx.len(), AMD64_CONTEXT_SIZE);
    assert_eq!(u32::from_le_bytes(ctx[48..52].try_into().unwrap()), 0x10000f);
    assert_eq!(u32::from_le_bytes(ctx[52..56].try_into().unwrap()), 0x1f80);
    assert_eq!(u16::from_le_bytes(ctx[56..58].try_into().unwrap()), 0x33);
    assert_eq!(u32::from_le_bytes(ctx[68..72].try_into().unwrap()), 0x246);
    assert_eq!(u64_at(&ctx, 72), 100);
    assert_eq!(u64_at(&ctx, 104), 106);
    assert_eq!(u64_at(&ctx, 120), 1);
    assert_eq!(u64_at(&ctx, 152), 0x7ffd_0000_1000);
    assert_eq!(u64_at(&ctx, 248), 0x40_1234);
    assert_eq!(u16::from_le_bytes(ctx[256..258].try_into().unwrap()), 0x37f);
    assert_eq!(ctx[256 + 160], 0xab);
    assert_eq!(info.get_ip(), 0x40_1234);
}

#[test]
fn dedup_by_drops_runs() {
    let mut v = PageVec::new_in(Allocator::new(4096));
    for x in [1u32, 1, 2, 3, 3, 3, 1, 4, 4] {
        v.push(x);
    }
    v.dedup_by(|a: &u32, b: &u32| a == b);
    assert_eq!(v.as_slice(), &[1, 2, 3, 1, 4]);
    let mut w = PageVec::new_in(Allocator::new(4096));
    for x in [10u32, 11, 12, 20, 21, 30] {
        w.push(x);
    }
    w.dedup_by(|a: &u32, b: &u32| a / 10 == b / 10);
    assert_eq!(w.as_slice(), &[10, 20, 30]);
}

#[test]
fn signal_context_record() {
    let mut gregs = [0u64; 23];
    for (i, g) in gregs.iter_mut().enumerate() {
        *g = i as u64 + 1;
    }
    gregs[18] = 0x0000_0000_0002_0033 | (0x53u64 << 32);
    let fp = FloatRegisters {
        cwd: 0x37f,
        swd: 0,
        ftw: 0,
        fop: 0,
        rip: 0,
        rdp: 0,
        mxcsr: 0x1f80,
        mxcr_mask: 0,
        st_space: vec![0; 128],
        xmm_space: vec![0; 256],
    };
    let ctx = ucontext_cpu_context(&gregs, &fp);
    assert_eq!(ctx.len(), AMD64_CONTEXT_SIZE);
    assert_eq!(u32::from_le_bytes(ctx[48..52].try_into().unwrap()), 0x10000b);
    assert_eq!(u16::from_le_bytes(ctx[56..58].try_into().unwrap()), 0x33);
    assert_eq!(u16::from_le_bytes(ctx[62..64].try_into().unwrap()), 0x53);
    assert_eq!(u16::from_le_bytes(ctx[64..66].try_into().unwrap()), 0x2);
    assert_eq!(u32::from_le_bytes(ctx[68..72].try_into().unwrap()), 18);
    assert_eq!(u64_at(&ctx, 72), 0);
    assert_eq!(u64_at(&ctx, 120), 14);
    assert_eq!(u64_at(&ctx, 248), 17);
}
