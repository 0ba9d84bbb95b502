use crash_capture::fixed_str::FixedStr;
use crash_capture::mapping::{add_mapping, move_entry_first, MappingInfo};
use crash_capture::ptrace_dumper::{get_thread_info, Error, PTraceDumper, SuspendOutcome};

fn check(m: &MappingInfo, start: usize, end: usize, offset: usize, exec: bool, name: &[u8]) {
    assert_eq!(m.start_addr, start);
    assert_eq!(m.size, end - start);
    assert_eq!(m.sys_start_addr, start);
    assert_eq!(m.sys_end_addr, end);
    assert_eq!(m.offset, offset);
    assert_eq!(m.has_exec, exec);
    assert_eq!(m.name.as_bytes(), name);
}

#[test]
fn parses_maps() {
    {
        let empty = MappingInfo::from_str("57942200000-57942300000 rw-p 00000000 00:00 0").unwrap();
        let start_addr = usize::from_str_radix("57942200000", 16).unwrap();
        let end_addr = usize::from_str_radix("57942300000", 16).unwrap();
        check(&empty, start_addr, end_addr, 0, false, b"");
        assert_eq!(empty.size, 0x100000);
    }
    {
        let pthread = MappingInfo::from_str(
            "7feca169f000-7feca16a0000 rw-p 0001b000 fd:00 1705088                    /usr/lib64/libpthread-2.33.so",
        )
        .unwrap();
        let start_addr = usize::from_str_radix("7feca169f000", 16).unwrap();
        let end_addr = usize::from_str_radix("7feca16a0000", 16).unwrap();
        let mut name = FixedStr::<255>::new();
        name.write_str("/usr/lib64/libpthread-2.33.so").unwrap();
        check(
            &pthread,
            start_addr,
            end_addr,
            usize::from_str_radix("0001b000", 16).unwrap(),
            false,
            name.as_bytes(),
        );
    }
    {
        let vdso = MappingInfo::from_str(
            "7fff249fc000-7fff249fe000 r-xp 00000000 00:00 0                          [vdso]",
        )
        .unwrap();
        let start_addr = usize::from_str_radix("7fff249fc000", 16).unwrap();
        let end_addr = usize::from_str_radix("7fff249fe000", 16).unwrap();
        check(&vdso, start_addr, end_addr, 0, true, b"");
    }
}

#[test]
fn anonymous_mapping_line() {
    let m = MappingInfo::from_str("57942200000-57942300000 rw-p 00000000 00:00 0").unwrap();
    assert_eq!(m.start_addr, 0x57942200000);
    assert_eq!(m.size, 0x100000);
    assert!(!m.has_exec);
    assert!(m.name.is_empty());
}

#[test]
fn file_mapping_line_keeps_full_path() {
    let m = MappingInfo::from_str(
        "7feca169f000-7feca16a0000 rw-p 0001b000 fd:00 1705088   /usr/lib64/libpthread-2.33.so",
    )
    .unwrap();
    assert_eq!(m.start_addr, 0x7feca169f000);
    assert_eq!(m.size, 0x1000);
    assert_eq!(m.offset, 0x1b000);
    assert!(!m.has_exec);
    assert_eq!(m.name.as_bytes(), b"/usr/lib64/libpthread-2.33.so");
}

#[test]
fn malformed_lines_are_rejected() {
    for line in [
        "",
        "zz-10 r-xp 00000000 00:00 0",
        "10 r-xp 00000000 00:00 0",
        "20-10 r-xp 00000000 00:00 0",
        "10-20 r-x",
        "10-20 r-xp 0000000g 00:00 0",
        "10000000000000000-10000000000000001 r-xp 00000000 00:00 0",
    ] {
        assert!(matches!(MappingInfo::from_str(line), Err(Error::InvalidMapping)), "{}", line);
    }
}

fn parsed(line: &str) -> MappingInfo {
    MappingInfo::from_str(line).unwrap()
}

#[test]
fn adjacent_same_file_mappings_merge() {
    let mut list = Vec::new();
    add_mapping(&mut list, parsed("1000-2000 r--p 00000000 08:01 1 /lib/a.so"), None);
    add_mapping(&mut list, parsed("2000-3000 r-xp 00001000 08:01 1 /lib/a.so"), None);
    assert_eq!(list.len(), 1);
    assert_eq!(list[0].start_addr, 0x1000);
    assert_eq!(list[0].size, 0x2000);
    assert!(list[0].has_exec);
    // an executable mapping followed by a non-executable one stays apart
    add_mapping(&mut list, parsed("3000-4000 r--p 00002000 08:01 1 /lib/a.so"), None);
    assert_eq!(list.len(), 2);
    // a gap stays apart
    add_mapping(&mut list, parsed("5000-6000 r--p 00000000 08:01 1 /lib/a.so"), None);
    assert_eq!(list.len(), 3);
}

#[test]
fn vdso_is_renamed() {
    let mut list = Vec::new();
    add_mapping(&mut list, parsed("7000-8000 r-xp 00001000 00:00 0 [vdso]"), Some(0x7000));
    assert_eq!(list[0].name.as_bytes(), b"linux-gate.so");
    assert_eq!(list[0].offset, 0);
}

#[test]
fn entry_point_mapping_moves_first() {
    let mut list = Vec::new();
    add_mapping(&mut list, parsed("1000-2000 r-xp 00000000 08:01 1 /lib/a.so"), None);
    add_mapping(&mut list, parsed("4000-5000 r-xp 00000000 08:01 2 /bin/main"), None);
    add_mapping(&mut list, parsed("8000-9000 r-xp 00000000 08:01 3 /lib/b.so"), None);
    move_entry_first(&mut list, Some(0x4800));
    let starts: Vec<usize> = list.iter().map(|m| m.start_addr).collect();
    assert_eq!(starts, vec![0x4000, 0x1000, 0x8000]);
    move_entry_first(&mut list, Some(0xf000));
    let starts: Vec<usize> = list.iter().map(|m| m.start_addr).collect();
    assert_eq!(starts, vec![0x4000, 0x1000, 0x8000]);
}

#[test]
fn dumper_enumerates_maps_text() {
    let mut d = PTraceDumper::new(1, 0, 11, 1, 1);
    let mut auxv = Vec::new();
    for (k, v) in [(9u64, 0x4800u64), (33, 0x7000)] {
        auxv.extend_from_slice(&k.to_le_bytes());
        auxv.extend_from_slice(&v.to_le_bytes());
    }
    d.read_auxv(&auxv).unwrap();
    let text = b"1000-2000 r--p 00000000 08:01 1 /lib/a.so\n2000-3000 r-xp 00001000 08:01 1 /lib/a.so\nnot a mapping\n4000-5000 r-xp 00000000 08:01 2 /bin/main\n7000-8000 r-xp 00000000 00:00 0 [vdso]";
    d.enumerate_mappings(text.to_vec());
    assert_eq!(d.mappings.len(), 3);
    assert_eq!(d.dropped_mappings, 1);
    assert_eq!(d.mappings[0].name.as_bytes(), b"/bin/main");
    assert_eq!(d.mappings[1].size, 0x2000);
    assert_eq!(d.mappings[2].name.as_bytes(), b"linux-gate.so");
    assert_eq!(d.find_mapping_no_bias(0x2500), Some(1));
    assert_eq!(d.find_mapping_no_bias(0x3500), None);
    assert_eq!(d.get_stack_info(0x4abc, 0x1000), Some((0x4000, 0x1000)));
}

#[test]
fn auxv_without_known_entries_fails() {
    let mut d = PTraceDumper::new(1, 0, 11, 1, 1);
    let mut auxv = Vec::new();
    auxv.extend_from_slice(&1000u64.to_le_bytes());
    auxv.extend_from_slice(&5u64.to_le_bytes());
    assert_eq!(d.read_auxv(&auxv), Err(Error::NoValidAuxvEntries));
}

#[test]
fn threads_are_deduplicated_and_suspended() {
    let mut d = PTraceDumper::new(1, 0, 11, 1, 1);
    let names: Vec<Vec<u8>> = vec![b".".to_vec(), b"10".to_vec(), b"10".to_vec(), b"11".to_vec(), b"12".to_vec()];
    d.enumerate_threads(&names);
    assert_eq!(d.threads, vec![Some(10), Some(11), Some(12)]);
    let outcomes = vec![
        SuspendOutcome { attached: true, stack_pointer: Some(0x1000) },
        SuspendOutcome { attached: false, stack_pointer: None },
        SuspendOutcome { attached: true, stack_pointer: Some(0) },
    ];
    assert_eq!(d.suspend_threads(&outcomes), Ok(()));
    assert_eq!(d.threads, vec![Some(10), None, None]);
    assert_eq!(d.threads_to_resume(), vec![10]);
    assert_eq!(d.resume_threads(&vec![false]), Err(Error::AllThreadsNotResumed));
    assert_eq!(d.resume_threads(&vec![true]), Err(Error::ThreadsNotSuspended));
}

#[test]
fn no_thread_suspended_fails() {
    let mut d = PTraceDumper::new(1, 0, 11, 1, 1);
    d.enumerate_threads(&vec![b"7".to_vec()]);
    let outcomes = vec![SuspendOutcome { attached: false, stack_pointer: None }];
    assert_eq!(d.suspend_threads(&outcomes), Err(Error::NoValidThreads));
}

#[test]
fn status_ids_are_read() {
    let status = b"Name:\tapp\nTgid:\t4242\nNgid:\t0\nPid:\t4243\nPPid:\t17\n".to_vec();
    assert_eq!(get_thread_info(status), Ok((4242, 17)));
    assert_eq!(get_thread_info(b"Name:\tapp\n".to_vec()), Err(Error::InvalidStatus));
}
