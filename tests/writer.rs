use crash_capture::file_writer::{FileWriter, Reservation, WriterError};
use crash_capture::fixed_str::FixedStr;
use crash_capture::mapping::MappingInfo;
use crash_capture::minidump::MinidumpOutput;
use crash_capture::minidump_writer::{
    dump, extra_thread_stack_len, ip_memory_range, limit_stack, should_include, MinidumpSettings, ModuleCapture, ThreadCapture,
    MINIDUMP_SIGNATURE, MINIDUMP_VERSION,
};
use crash_capture::sanitize::sanitize_stack;

fn le32(b: &[u8], o: usize) -> u32 {
    u32::from_le_bytes([b[o], b[o + 1], b[o + 2], b[o + 3]])
}

#[test]
fn reservations_grow_by_pages() {
    let mut fw = FileWriter::new(4096);
    let a = fw.reserve_raw(32).unwrap();
    assert_eq!(a, Reservation { pos: 0, size: 32 });
    assert_eq!(fw.as_bytes().len(), 4096);
    let b = fw.reserve_raw(5000).unwrap();
    assert_eq!(b.pos, 32);
    assert_eq!(fw.as_bytes().len(), 4096 + 2 * 4096);
    assert_eq!(fw.position(), 5032);
}

#[test]
fn writes_stay_inside_reservations() {
    let mut fw = FileWriter::new(4096);
    let a = fw.reserve_raw(4).unwrap();
    assert_eq!(fw.write(a, 0, &[1, 2, 3, 4]), Ok(()));
    assert_eq!(&fw.as_bytes()[..4], &[1, 2, 3, 4]);
    assert_eq!(fw.write(a, 2, &[9, 9, 9]), Err(WriterError::OutOfBounds));
    assert_eq!(&fw.as_bytes()[..4], &[1, 2, 3, 4]);
}

#[test]
fn dump_header_and_directory() {
    let mut fw = FileWriter::new(4096);
    let threads = vec![
        ThreadCapture { tid: 7, stack_pointer: 0x1010, stack_start: 0x1000, stack: vec![0xaa; 64], context: vec![1; 16] },
        ThreadCapture { tid: 8, stack_pointer: 0x2000, stack_start: 0x2000, stack: vec![], context: vec![2; 16] },
    ];
    let modules = vec![ModuleCapture { base: 0x400000, size: 0x1000, name: b"/bin/app".to_vec(), identifier: vec![1, 2, 3, 4] }];
    let settings = MinidumpSettings { skip_stacks_if_mapping_is_unreferenced: false, size_limit: None, sanitize_stacks: false };
    let layout = dump(&mut fw, &threads, &modules, 7, &settings, &Vec::new(), &Some((0x40_1000, vec![0xcc; 32])), 1234).unwrap();
    let blocks = &layout.threads.stacks;
    let img = fw.as_bytes();
    assert_eq!(le32(img, 0), MINIDUMP_SIGNATURE);
    assert_eq!(le32(img, 4), MINIDUMP_VERSION);
    assert_eq!(le32(img, 8), 2);
    assert_eq!(le32(img, 12), 32);
    assert_eq!(le32(img, 20), 1234);
    assert_eq!(le32(img, 32), 3);
    assert_eq!(le32(img, 44), 4);
    let tl = le32(img, 40) as usize;
    assert_eq!(le32(img, tl), 2);
    assert_eq!(le32(img, tl + 4), 7);
    assert_eq!(le32(img, tl + 4 + 48), 8);
    let ml = le32(img, 52) as usize;
    assert_eq!(le32(img, ml), 1);
    assert_eq!(blocks.len(), 2);
    assert_eq!(blocks[0].start_of_memory_range, 0x1000);
    assert_eq!(blocks[0].memory.data_size, 64);
    assert_eq!(blocks[1].memory.data_size, 0);
    let at = blocks[0].memory.rva as usize;
    assert_eq!(&img[at..at + 64], &[0xaa; 64][..]);
    let ctx = layout.threads.contexts[1];
    assert_eq!(&img[ctx.rva as usize..ctx.rva as usize + 16], &[2u8; 16][..]);
    let name = layout.modules.names[0];
    assert_eq!(le32(img, name.rva as usize), 8);
    assert_eq!(&img[name.rva as usize + 4..name.rva as usize + 12], b"/bin/app");
    let cv = layout.modules.identifiers[0];
    assert_eq!(&img[cv.rva as usize + 4..cv.rva as usize + 8], &[1, 2, 3, 4]);
    assert_eq!(le32(img, ml + 4 + 20), name.rva);
    let ipm = layout.ip_memory.unwrap();
    assert_eq!(ipm.start_of_memory_range, 0x40_1000);
    assert_eq!(&img[ipm.memory.rva as usize..ipm.memory.rva as usize + 32], &[0xcc; 32][..]);
}

#[test]
fn extra_threads_get_short_stacks() {
    assert_eq!(extra_thread_stack_len(None, 0, 100), None);
    assert_eq!(extra_thread_stack_len(Some(1 << 30), 0, 100), None);
    assert_eq!(extra_thread_stack_len(Some(100_000), 0, 100), Some(2048));
    // chunk holding the stack pointer, counted from the copy's start
    assert_eq!(limit_stack(0x1000, 8192, 0x1000 + 5000, 2048), (4096, 2048));
    assert_eq!(limit_stack(0x1000, 8192, 0x1000 + 100, 2048), (0, 2048));
    assert_eq!(limit_stack(0x1000, 5000, 0x1000 + 4500, 2048), (4096, 904));
    assert_eq!(limit_stack(0x1000, 1000, 0x1100, 2048), (0, 1000));
}

#[test]
fn sanitized_stack_keeps_small_ints_and_code_pointers() {
    let mut name = FixedStr::<255>::new();
    name.write_str("/bin/app").unwrap();
    let code = MappingInfo {
        start_addr: 0x400000,
        size: 0x1000,
        sys_start_addr: 0x400000,
        sys_end_addr: 0x401000,
        offset: 0,
        has_exec: true,
        name,
    };
    let mappings = vec![code];
    let mut stack = Vec::new();
    for v in [0xdead_beefu64, 42, 0x400010, (-5i64) as u64, 0x7fff_0000_1234] {
        stack.extend_from_slice(&v.to_le_bytes());
    }
    stack.extend_from_slice(&[7, 7, 7]);
    sanitize_stack(&mut stack, 8, &mappings);
    let word = |i: usize| u64::from_le_bytes(stack[i * 8..i * 8 + 8].try_into().unwrap());
    assert_eq!(word(0), 0);
    assert_eq!(word(1), 42);
    assert_eq!(word(2), 0x400010);
    assert_eq!(word(3), (-5i64) as u64);
    assert_eq!(word(4), 0x0defaced0defaced);
    assert_eq!(&stack[40..], &[0, 0, 0]);
}

#[test]
fn dump_path_from_uuid() {
    let uuid = [0x12u8, 0x34, 0x56, 0x78, 0x9a, 0xbc, 0xde, 0xf0, 0, 1, 2, 3, 4, 5, 6, 7];
    let MinidumpOutput::Path(p) = MinidumpOutput::with_uuid("/tmp/crashes", uuid);
    assert_eq!(p, "/tmp/crashes/123456789abcdef00001020304050607.dmp");
    let MinidumpOutput::Path(q) = MinidumpOutput::with_uuid("/tmp/", uuid);
    assert_eq!(q, "/tmp/123456789abcdef00001020304050607.dmp");
}

#[test]
fn module_filter() {
    let m = MappingInfo::from_str("400000-402000 r-xp 00000000 08:01 7 /bin/app").unwrap();
    assert!(should_include(&m));
    let offset = MappingInfo::from_str("400000-402000 r-xp 00001000 08:01 7 /bin/app").unwrap();
    assert!(!should_include(&offset));
    let small = MappingInfo::from_str("400000-400800 r-xp 00000000 08:01 7 /bin/app").unwrap();
    assert!(!should_include(&small));
    let anon = MappingInfo::from_str("400000-402000 r-xp 00000000 00:00 0").unwrap();
    assert!(!should_include(&anon));
    let data = MappingInfo::from_str("400000-402000 rw-p 00000000 08:01 7 /bin/app").unwrap();
    assert!(!should_include(&data));
}

#[test]
fn extra_threads_are_cut_under_a_size_limit() {
    let mut threads = Vec::new();
    for tid in 0..25u32 {
        threads.push(ThreadCapture {
            tid,
            stack_pointer: 0x10_0000 + 6000,
            stack_start: 0x10_0000,
            stack: vec![tid as u8; 8192],
            context: vec![0; 8],
        });
    }
    let settings = MinidumpSettings { skip_stacks_if_mapping_is_unreferenced: false, size_limit: Some(1000), sanitize_stacks: false };
    let mut fw = FileWriter::new(4096);
    let layout = dump(&mut fw, &threads, &Vec::new(), 22, &settings, &Vec::new(), &None, 0).unwrap();
    let stacks = &layout.threads.stacks;
    for (i, s) in stacks.iter().enumerate() {
        if i >= 20 && i != 22 {
            assert_eq!(s.memory.data_size, 2048);
            assert_eq!(s.start_of_memory_range, 0x10_0000 + 4096);
        } else {
            assert_eq!(s.memory.data_size, 8192);
        }
    }
}

#[test]
fn code_around_the_crashing_instruction() {
    assert_eq!(ip_memory_range(0x1000, 0x0, 0x10000), (0x1000 - 128, 256));
    assert_eq!(ip_memory_range(0x1010, 0x1000, 0x10000), (0x1000, 0x10 + 128));
    assert_eq!(ip_memory_range(0x1ff0, 0x1000, 0x1000), (0x1ff0 - 128, 128 + 0x10));
}
