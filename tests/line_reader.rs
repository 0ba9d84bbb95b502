use crash_capture::line_reader::LineReader;

fn text(lr: &mut LineReader<512>) -> Option<Vec<u8>> {
    lr.next().map(|l| l.as_bytes().to_vec())
}

#[test]
fn line_reader_empty() {
    let mut lr = LineReader::<512>::new(Vec::new());
    assert!(lr.next().is_none());
}

#[test]
fn one_line_terminated() {
    let mut lr = LineReader::<512>::new(b"line\n".to_vec());
    assert_eq!(b"line".to_vec(), text(&mut lr).unwrap());
    assert!(lr.next().is_none());
}

#[test]
fn one_line_eof() {
    let mut lr = LineReader::<512>::new(b"line".to_vec());
    assert_eq!(b"line".to_vec(), text(&mut lr).unwrap());
    assert!(lr.next().is_none());
}

#[test]
fn two_lines_terminated() {
    let mut lr = LineReader::<512>::new(b"one\ntwo\n".to_vec());
    assert_eq!(b"one".to_vec(), text(&mut lr).unwrap());
    assert_eq!(b"two".to_vec(), text(&mut lr).unwrap());
    assert!(lr.next().is_none());
}

#[test]
fn two_lines_eof() {
    let mut lr = LineReader::<512>::new(b"one\ntwo".to_vec());
    assert_eq!(b"one".to_vec(), text(&mut lr).unwrap());
    assert_eq!(b"two".to_vec(), text(&mut lr).unwrap());
    assert!(lr.next().is_none());
}

#[test]
fn large_lines_eof() {
    let mut large_lines = [b'a'; 1024];
    large_lines[200] = b'\n';
    large_lines[401] = b'\n';
    large_lines[602] = b'\n';
    large_lines[803] = b'\n';
    large_lines[1004] = b'\n';

    let single_line = vec![b'a'; 200];
    let mut lr = LineReader::<512>::new(large_lines.to_vec());
    for _ in 0..5 {
        assert_eq!(single_line, text(&mut lr).unwrap());
    }
    assert_eq!(vec![b'a'; 19], text(&mut lr).unwrap());
    assert!(lr.next().is_none());
}

#[test]
fn max_length_line_terminated() {
    let mut max = [b'1'; 512];
    max[511] = b'\n';
    let mut lr = LineReader::<512>::new(max.to_vec());
    assert_eq!(max[..511].to_vec(), text(&mut lr).unwrap());
    assert!(lr.next().is_none());
}

#[test]
fn max_length_line_eof() {
    let max = [b'1'; 511];
    let mut lr = LineReader::<512>::new(max.to_vec());
    assert_eq!(max.to_vec(), text(&mut lr).unwrap());
    assert!(lr.next().is_none());
}

#[test]
fn line_reader_too_long() {
    let too_long = [b'f'; 513];
    let mut lr = LineReader::<512>::new(too_long.to_vec());
    assert!(lr.next().is_none());
}

#[test]
fn chunking_does_not_change_lines() {
    let input = b"alpha\nbeta\n\ngamma delta\nlast".to_vec();
    let expected: Vec<Vec<u8>> = vec![
        b"alpha".to_vec(),
        b"beta".to_vec(),
        b"".to_vec(),
        b"gamma delta".to_vec(),
        b"last".to_vec(),
    ];
    for step in 1..8usize {
        let breaks: Vec<usize> = (1..input.len()).filter(|i| i % step == 0).collect();
        let mut lr = LineReader::<16>::with_chunks(input.clone(), breaks);
        let lines: Vec<Vec<u8>> = lr.read_all().iter().map(|l| l.as_bytes().to_vec()).collect();
        assert_eq!(lines, expected);
    }
}

#[test]
fn overlong_line_stops_reading() {
    let mut lr = LineReader::<8>::new(b"short\nthis one is long\nafter\n".to_vec());
    let lines = lr.read_all();
    assert_eq!(lines.len(), 1);
    assert_eq!(lines[0].as_bytes(), b"short");
    assert!(lr.next().is_none());
}
