use rexdump::driver::dump_paged;
use rexdump::errors::{
    capture_failure, code_or_unknown, errno, failure_message, failure_prefix, DumpError,
    FailureKind,
};
use rexdump::paging::Pager;
use rexdump::render::{dump_bytes, dump_trailer, dump_window};

fn dump_string(bytes: &[u8]) -> String {
    String::from_utf8(dump_bytes(bytes)).unwrap()
}

/// Reads the byte values back out of one dump line's hex cells.
fn parse_line_bytes(line: &str) -> Vec<u8> {
    let chars: Vec<char> = line.chars().collect();
    let mut bytes = Vec::new();
    for i in 0..16 {
        let start = 10 + 3 * i + if i >= 8 { 1 } else { 0 };
        let cell: String = chars[start..start + 2].iter().collect();
        if cell == "  " {
            break;
        }
        bytes.push(u8::from_str_radix(&cell, 16).unwrap());
    }
    bytes
}

/// Reads all byte values back out of a whole dump.
fn parse_dump_bytes(dump: &str) -> Vec<u8> {
    let mut bytes = Vec::new();
    for line in dump.lines() {
        if line.len() <= 10 {
            break;
        }
        bytes.extend(parse_line_bytes(line));
    }
    bytes
}

#[test]
fn empty_file_dumps_nothing() {
    assert_eq!(dump_bytes(&[]), Vec::<u8>::new());
    assert_eq!(dump_string(&[]), "");
}

#[test]
fn sixteen_a_bytes_single_line() {
    let out = dump_string(&[0x41u8; 16]);
    let expected = "00000000  41 41 41 41 41 41 41 41  41 41 41 41 41 41 41 41  |AAAAAAAAAAAAAAAA|\n00000010\n\n";
    assert_eq!(out, expected);
}

#[test]
fn twenty_byte_file_two_lines() {
    let mut input = vec![0x41u8; 16];
    input.extend([0x00u8, 0x01, 0x02, 0x03]);
    let out = dump_string(&input);
    let mut expected = String::new();
    expected.push_str(
        "00000000  41 41 41 41 41 41 41 41  41 41 41 41 41 41 41 41  |AAAAAAAAAAAAAAAA|\n",
    );
    expected.push_str("00000010  00 01 02 03 ");
    for _ in 0..12 {
        expected.push_str("   ");
    }
    expected.push_str("  |....|\n");
    expected.push_str("00000014\n\n");
    assert_eq!(out, expected);
}

#[test]
fn line_count_matches_ceiling() {
    for n in [0usize, 1, 5, 15, 16, 17, 31, 32, 33, 100, 256] {
        let input: Vec<u8> = (0..n).map(|i| (i % 251) as u8).collect();
        let mut lines: Vec<u8> = Vec::new();
        dump_window(&mut lines, &input, 0);
        let newlines = lines.iter().filter(|b| **b == b'\n').count();
        assert_eq!(newlines, (n + 15) / 16, "size {}", n);
    }
}

#[test]
fn offsets_advance_by_line() {
    let input: Vec<u8> = (0..40).map(|i| i as u8).collect();
    let out = dump_string(&input);
    let lines: Vec<&str> = out.lines().collect();
    assert!(lines[0].starts_with("00000000  "));
    assert!(lines[1].starts_with("00000010  "));
    assert!(lines[2].starts_with("00000020  "));
    // The trailing line shows the total size, 40 == 0x28.
    assert_eq!(lines[3], "00000028");
    assert_eq!(lines[4], "");
}

#[test]
fn round_trip_reconstructs_bytes() {
    let mut input: Vec<u8> = (0u16..256).map(|b| b as u8).collect();
    input.extend([0xde, 0xad, 0xbe, 0xef, 0x00]);
    let out = dump_string(&input);
    assert_eq!(parse_dump_bytes(&out), input);
}

#[test]
fn round_trip_of_ragged_line() {
    let input = [0xffu8, 0x00, 0x7f];
    let out = dump_string(&input);
    assert_eq!(parse_dump_bytes(&out), input.to_vec());
}

#[test]
fn dump_twice_is_identical() {
    let input: Vec<u8> = (0..77).map(|i| (i * 7) as u8).collect();
    assert_eq!(dump_bytes(&input), dump_bytes(&input));
}

#[test]
fn paged_dump_equals_whole_dump() {
    let input: Vec<u8> = (0..100).map(|i| (i * 3) as u8).collect();
    assert_eq!(dump_paged(&input, 32), dump_bytes(&input));
    assert_eq!(dump_paged(&input, 16), dump_bytes(&input));
    assert_eq!(dump_paged(&input, 1 << 20), dump_bytes(&input));
}

#[test]
fn exact_page_multiple_has_no_empty_window() {
    let mut pager = Pager::new(64, 32);
    assert_eq!(pager.next_window(), Some((0, 32)));
    assert_eq!(pager.next_window(), Some((32, 32)));
    assert_eq!(pager.next_window(), None);
}

#[test]
fn last_window_is_truncated() {
    let mut pager = Pager::new(40, 32);
    assert_eq!(pager.next_window(), Some((0, 32)));
    assert_eq!(pager.next_window(), Some((32, 8)));
    assert_eq!(pager.next_window(), None);
}

#[test]
fn empty_file_has_no_window() {
    let mut pager = Pager::new(0, 4096);
    assert_eq!(pager.next_window(), None);
}

#[test]
fn short_line_aligns_delimiter_with_full_line() {
    let short = dump_string(&[0x31u8; 5]);
    let full = dump_string(&[0x31u8; 16]);
    let short_pipe = short.find('|').unwrap();
    let full_pipe = full.find('|').unwrap();
    assert_eq!(short_pipe, full_pipe);
    // Five cells of three bytes, eleven blank slots, the half-row gap.
    let line = short.lines().next().unwrap();
    assert_eq!(line, "00000000  31 31 31 31 31                                    |11111|");
}

#[test]
fn ascii_column_pins_printable_range() {
    let out = dump_string(&[0x1f, 0x20, 0x7e, 0x7f, 0xff]);
    let line = out.lines().next().unwrap();
    let ascii: String = line.chars().skip_while(|c| *c != '|').collect();
    assert_eq!(ascii, "|. ~..|");
}

#[test]
fn offsets_wider_than_eight_digits_grow() {
    let mut out: Vec<u8> = Vec::new();
    dump_window(&mut out, &[0x41u8; 16], 0x1_0000_0000);
    let text = String::from_utf8(out).unwrap();
    assert!(text.starts_with("100000000  41 "));
    let mut trailer: Vec<u8> = Vec::new();
    dump_trailer(&mut trailer, 0x1_0000_0010);
    assert_eq!(String::from_utf8(trailer).unwrap(), "100000010\n\n");
}

#[test]
fn failure_prefixes_name_the_operation() {
    assert_eq!(failure_prefix(FailureKind::Open), "Couldn't open file: ");
    assert_eq!(failure_prefix(FailureKind::Metadata), "Couldn't get file info: ");
    assert_eq!(failure_prefix(FailureKind::Mapping), "Couldn't read file: ");
}

#[test]
fn failure_message_prepends_prefix() {
    assert_eq!(
        failure_message(FailureKind::Open, "No such file or directory"),
        "Couldn't open file: No such file or directory"
    );
    assert_eq!(failure_message(FailureKind::Mapping, "Cannot allocate memory"), "Couldn't read file: Cannot allocate memory");
}

#[test]
fn captured_failure_keeps_its_kind() {
    let err: DumpError = capture_failure(FailureKind::Open);
    assert_eq!(err.kind, FailureKind::Open);
    let _code: i32 = errno();
}

#[test]
fn unknown_os_code_falls_back() {
    assert_eq!(code_or_unknown(Some(2)), 2);
    assert_eq!(code_or_unknown(None), -1);
}
