use crash_capture::fixed_str::{FixedCStr, FixedStr};

#[test]
fn fixed_str_simple() {
    let mut fstr = FixedStr::<32>::new();
    fstr.write_str("/proc/").unwrap();
    fstr.write_decimal(35234).unwrap();
    fstr.write_str("/task").unwrap();
    assert_eq!(fstr.as_bytes(), b"/proc/35234/task");

    let mut fcstr = FixedCStr::<32>::new();
    fcstr.write_str("/proc/").unwrap();
    fcstr.write_decimal(35234).unwrap();
    fcstr.write_str("/task").unwrap();
    assert_eq!(fcstr.to_bytes_with_nul(), b"/proc/35234/task\0".to_vec());
}

#[test]
fn fixed_str_too_long() {
    let mut fstr = FixedStr::<15>::new();
    let r = fstr
        .write_str("/proc/")
        .and_then(|_| fstr.write_decimal(35234))
        .and_then(|_| fstr.write_str("/task"));
    assert!(r.is_err());
    assert_eq!(fstr.as_bytes(), b"/proc/35234");

    let mut fcstr = FixedCStr::<16>::new();
    let r = fcstr
        .write_str("/proc/")
        .and_then(|_| fcstr.write_decimal(35234))
        .and_then(|_| fcstr.write_str("/task"));
    assert!(r.is_err());
    assert_eq!(fcstr.to_bytes_with_nul(), b"/proc/35234\0".to_vec());
}

#[test]
fn from_slice_respects_capacity() {
    assert!(FixedStr::<4>::from_slice(b"abcd").is_some());
    assert!(FixedStr::<4>::from_slice(b"abcde").is_none());
    assert!(FixedCStr::<4>::from_bytes(b"abc").is_some());
    assert!(FixedCStr::<4>::from_bytes(b"abcd").is_none());
    let mut s = FixedStr::<8>::from_slice(b"xy").unwrap();
    s.clear();
    assert!(s.is_empty());
}

#[test]
fn decimal_digits_are_exact() {
    let mut s = FixedStr::<8>::new();
    s.write_decimal(0).unwrap();
    s.write_decimal(907).unwrap();
    assert_eq!(s.as_bytes(), b"0907");
    let mut t = FixedStr::<3>::new();
    assert!(t.write_decimal(12345).is_err());
    assert_eq!(t.as_bytes(), b"123");
}
