use moodly::lines::{head_lines, split_lines};
use moodly::tail::{scan_tail, tail_lines, TailScan, CHUNK_SIZE};
use moodly::{Cli, Commands};

fn lines_of(strs: &[&str]) -> Vec<Vec<u8>> {
    strs.iter().map(|s| s.as_bytes().to_vec()).collect()
}

#[test]
fn tail_returns_last_lines_in_order() {
    let content = b"alpha\nbeta\ngamma\ndelta\n".to_vec();
    assert_eq!(tail_lines(&content, 2), lines_of(&["gamma", "delta"]));
    assert_eq!(tail_lines(&content, 4), lines_of(&["alpha", "beta", "gamma", "delta"]));
}

#[test]
fn tail_with_more_requested_than_lines_returns_all() {
    let content = b"one\ntwo\n".to_vec();
    assert_eq!(tail_lines(&content, 10), lines_of(&["one", "two"]));
}

#[test]
fn tail_of_empty_file_is_empty_for_any_n() {
    let content: Vec<u8> = Vec::new();
    assert_eq!(tail_lines(&content, 0), lines_of(&[]));
    assert_eq!(tail_lines(&content, 1), lines_of(&[]));
    assert_eq!(tail_lines(&content, 1000), lines_of(&[]));
}

#[test]
fn tail_zero_yields_no_lines() {
    let content = b"a\nb\nc\n".to_vec();
    assert_eq!(tail_lines(&content, 0), lines_of(&[]));
}

#[test]
fn tail_counts_a_final_unterminated_line() {
    let content = b"a\nb\nlast".to_vec();
    assert_eq!(tail_lines(&content, 1), lines_of(&["last"]));
    assert_eq!(tail_lines(&content, 2), lines_of(&["b", "last"]));
}

#[test]
fn tail_keeps_empty_lines() {
    let content = b"a\n\nb\n".to_vec();
    assert_eq!(tail_lines(&content, 3), lines_of(&["a", "", "b"]));
    assert_eq!(tail_lines(&content, 2), lines_of(&["", "b"]));
}

#[test]
fn tail_is_idempotent_on_unchanged_content() {
    let content = b"x\ny\nz\n".to_vec();
    let first = tail_lines(&content, 2);
    let second = tail_lines(&content, 2);
    assert_eq!(first, second);
}

fn run_scan(content: &[u8], n: usize) -> Vec<Vec<u8>> {
    let mut scan = TailScan::new(content.len() as u64, n);
    while scan.wants_more() {
        let rs = scan.read_size() as usize;
        let pos = scan.position as usize;
        let chunk = content[pos - rs..pos].to_vec();
        scan.feed(chunk);
    }
    scan.lines()
}

#[test]
fn chunked_scan_agrees_with_whole_file_tail() {
    // Spread enough lines over several chunks that the scan stops early.
    let mut content: Vec<u8> = Vec::new();
    for i in 0..3000 {
        content.extend_from_slice(format!("line number {}\n", i).as_bytes());
    }
    assert!(content.len() > 2 * CHUNK_SIZE as usize);
    for n in [0usize, 1, 5, 2999, 3000, 5000] {
        assert_eq!(run_scan(&content, n), tail_lines(&content, n));
    }
}

#[test]
fn chunked_scan_of_empty_file_stops_at_once() {
    let scan = TailScan::new(0, 7);
    assert!(!scan.wants_more());
    assert_eq!(scan.lines(), lines_of(&[]));
}

#[test]
fn head_takes_the_first_lines() {
    let content = b"a\nb\nc\nd\n".to_vec();
    assert_eq!(head_lines(&content, Some(2)), lines_of(&["a", "b"]));
    assert_eq!(head_lines(&content, Some(0)), lines_of(&[]));
    assert_eq!(head_lines(&content, Some(9)), lines_of(&["a", "b", "c", "d"]));
    assert_eq!(head_lines(&content, None), lines_of(&["a", "b", "c", "d"]));
}

#[test]
fn dump_reproduces_the_file_bytes() {
    let content = b"first\nsecond, with comma\n\nlast\n".to_vec();
    let mut rebuilt: Vec<u8> = Vec::new();
    for line in head_lines(&content, None) {
        rebuilt.extend_from_slice(&line);
        rebuilt.push(b'\n');
    }
    assert_eq!(rebuilt, content);
}

#[test]
fn in_memory_scan_agrees_with_the_driven_scan() {
    let mut content: Vec<u8> = Vec::new();
    for i in 0..1200 {
        content.extend_from_slice(format!("entry {}\n", i).as_bytes());
    }
    for n in [0usize, 1, 10, 1200, 1500] {
        assert_eq!(scan_tail(&content, n), run_scan(&content, n));
    }
    let unterminated = b"alpha\nbeta\ngamma".to_vec();
    assert_eq!(scan_tail(&unterminated, 2), lines_of(&["beta", "gamma"]));
    assert_eq!(scan_tail(&Vec::new(), 3), lines_of(&[]));
}

#[test]
fn command_surface_carries_the_three_read_commands() {
    let tail = Cli { command: Some(Commands::Tail { n: 10 }) };
    match tail.command {
        Some(Commands::Tail { n }) => assert_eq!(n, 10),
        _ => panic!("expected the tail command"),
    }
    let record = Cli { command: None };
    assert!(record.command.is_none());
    assert!(matches!(Cli { command: Some(Commands::Dump) }.command, Some(Commands::Dump)));
    assert!(matches!(Cli { command: Some(Commands::Where) }.command, Some(Commands::Where)));
}

#[test]
fn split_lines_drops_only_the_final_terminator() {
    assert_eq!(split_lines(&b"a\nb".to_vec()), lines_of(&["a", "b"]));
    assert_eq!(split_lines(&b"a\nb\n".to_vec()), lines_of(&["a", "b"]));
    assert_eq!(split_lines(&b"\n".to_vec()), lines_of(&[""]));
    assert_eq!(split_lines(&Vec::new()), lines_of(&[]));
}
