use job_core::tail::{tail_offset, TailScan, CHUNK_SIZE};

fn tail(data: &[u8], n: usize) -> &[u8] {
    &data[tail_offset(data, n)..]
}

/// Runs the scan the way a reader of a file does: chunk by chunk.
fn scan(data: &[u8], n: usize) -> u64 {
    let mut scan = TailScan::new(data.len() as u64, n);
    let mut reads = 0;
    while !scan.is_done() {
        let (start, size) = scan.next_chunk();
        assert!(size as u64 <= CHUNK_SIZE);
        let start = start as usize;
        assert!(scan.feed(&data[start..start + size]));
        reads += 1;
        assert!(reads <= data.len() / CHUNK_SIZE as usize + 1);
    }
    scan.start_offset().unwrap()
}

fn numbered(lines: usize) -> Vec<u8> {
    let mut data = Vec::new();
    for i in 1..=lines {
        data.extend_from_slice(format!("line{i:02}\n").as_bytes());
    }
    data
}

#[test]
fn tail_last_three_of_ten() {
    let data = numbered(10);
    assert_eq!(tail(&data, 3), b"line08\nline09\nline10\n");
    assert_eq!(tail(&data, 100), &data[..]);
    assert_eq!(tail_offset(&data, 3), 49);
    assert_eq!(scan(&data, 3), 49);
}

#[test]
fn tail_of_exactly_n_lines_is_everything() {
    let data = numbered(5);
    assert_eq!(tail_offset(&data, 5), 0);
    assert_eq!(tail_offset(&data, 6), 0);
    assert_eq!(tail(&data, 4), &data[7..]);
}

#[test]
fn tail_of_nothing_is_nothing() {
    assert_eq!(tail_offset(b"", 3), 0);
    assert_eq!(tail(b"", 3), b"");
    assert_eq!(tail_offset(b"", 0), 0);
}

#[test]
fn tail_of_no_lines_shows_nothing() {
    let data = numbered(4);
    assert_eq!(tail_offset(&data, 0), data.len());
    assert_eq!(tail(&data, 0), b"");
}

#[test]
fn a_final_newline_starts_no_empty_line() {
    assert_eq!(tail(b"a\nb\nc\n", 1), b"c\n");
    assert_eq!(tail(b"a\nb\nc", 1), b"c");
    assert_eq!(tail(b"a\nb\nc\n", 2), b"b\nc\n");
    assert_eq!(tail(b"a\nb\nc", 2), b"b\nc");
    assert_eq!(tail(b"a\nb\nc\n", 3), b"a\nb\nc\n");
    assert_eq!(tail(b"\n", 1), b"\n");
    assert_eq!(tail(b"x", 1), b"x");
}

#[test]
fn empty_lines_in_the_middle_count() {
    assert_eq!(tail(b"a\n\n\nb\n", 2), b"\nb\n");
    assert_eq!(tail(b"a\n\n\nb\n", 3), b"\n\nb\n");
    assert_eq!(tail(b"\n\n", 1), b"\n");
    assert_eq!(tail(b"\n\n", 2), b"\n\n");
}

#[test]
fn the_scan_works_across_chunks() {
    // lines of 100 bytes: a chunk of 8192 bytes ends in the middle of one
    let mut data = Vec::new();
    for i in 0..500 {
        let mut line = format!("{i:05}").into_bytes();
        line.resize(99, b'.');
        line.push(b'\n');
        data.extend_from_slice(&line);
    }
    assert_eq!(data.len(), 50_000);
    for n in [0usize, 1, 2, 81, 82, 83, 163, 164, 499, 500, 501, 10_000] {
        let expected = if n == 0 { data.len() } else { data.len() - 100 * n.min(500) };
        assert_eq!(tail_offset(&data, n), expected, "n = {n}");
        assert_eq!(scan(&data, n) as usize, expected, "n = {n}");
    }
}

#[test]
fn the_scan_stops_reading_once_it_has_enough() {
    let mut data = vec![b'x'; 100_000];
    let len = data.len();
    data[len - 1] = b'\n';
    data[len - 10] = b'\n';
    data[len - 20] = b'\n';
    let mut scan = TailScan::new(len as u64, 1);
    let (start, size) = scan.next_chunk();
    assert_eq!((start, size), (len as u64 - CHUNK_SIZE, CHUNK_SIZE as usize));
    assert_eq!(scan.start_offset(), None);
    assert!(scan.feed(&data[start as usize..start as usize + size]));
    assert!(scan.is_done());
    assert_eq!(scan.start_offset(), Some(len as u64 - 9));
}

#[test]
fn a_long_last_line_takes_the_scan_to_the_start() {
    let data = vec![b'x'; 20_000];
    assert_eq!(scan(&data, 1), 0);
    assert_eq!(tail_offset(&data, 1), 0);
    let mut scan = TailScan::new(20_000, 5);
    assert!(!scan.is_done());
    assert_eq!(scan.next_chunk(), (20_000 - 8192, 8192));
    assert!(scan.feed(&data[20_000 - 8192..]));
    assert_eq!(scan.next_chunk(), (20_000 - 2 * 8192, 8192));
    assert!(scan.feed(&data[20_000 - 2 * 8192..20_000 - 8192]));
    assert_eq!(scan.next_chunk(), (0, 20_000 - 2 * 8192));
    // a chunk longer than what is left is refused
    assert!(!scan.feed(&data[..20_000 - 2 * 8192 + 1]));
    assert_eq!(scan.next_chunk(), (0, 20_000 - 2 * 8192));
    assert!(scan.feed(&data[..20_000 - 2 * 8192]));
    assert!(scan.is_done());
    assert_eq!(scan.start_offset(), Some(0));
}

#[test]
fn nothing_is_read_where_nothing_is_wanted() {
    assert!(TailScan::new(1000, 0).is_done());
    assert!(TailScan::new(0, 3).is_done());
    assert_eq!(TailScan::new(1000, 0).start_offset(), Some(1000));
    assert_eq!(TailScan::new(0, 3).start_offset(), Some(0));
}
