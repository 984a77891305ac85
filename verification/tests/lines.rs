use filter_pipeline::input::file::{
    is_wanted_entry, read_lines, select_entry, Compression, Fed, LineAssembler, LINE_CAPACITY,
};

fn lines_of(data: &str) -> Vec<Vec<u8>> {
    let read = read_lines(&Vec::from(data), None);
    assert!(read.complete);
    read.lines
}

#[test]
fn read_lines_keeps_the_line_feed() {
    assert_eq!(lines_of("a\nbc\n"), vec![Vec::from("a\n"), Vec::from("bc\n")]);
}

#[test]
fn read_lines_of_an_empty_stream_is_empty() {
    assert!(lines_of("").is_empty());
}

#[test]
fn read_lines_emits_a_last_line_without_line_feed() {
    assert_eq!(lines_of("a\nb"), vec![Vec::from("a\n"), Vec::from("b")]);
    assert_eq!(lines_of("b"), vec![Vec::from("b")]);
}

#[test]
fn read_lines_emits_empty_lines() {
    assert_eq!(lines_of("\n\na\n"), vec![Vec::from("\n"), Vec::from("\n"), Vec::from("a\n")]);
}

#[test]
fn read_lines_takes_bytes_that_are_not_utf8() {
    let read = read_lines(&vec![0xff, 0xfe, 0x0a, 0x80], None);
    assert!(read.complete);
    assert_eq!(read.lines, vec![vec![0xff, 0xfe, 0x0a], vec![0x80]]);
}

#[test]
fn read_lines_accepts_a_line_of_the_capacity() {
    let mut data = vec![b'x'; LINE_CAPACITY - 1];
    data.push(b'\n');
    data.extend_from_slice(b"next\n");
    let read = read_lines(&data, Some(LINE_CAPACITY));
    assert!(read.complete);
    assert_eq!(read.lines.len(), 2);
    assert_eq!(read.lines[0].len(), 1024);
    assert_eq!(read.lines[1], Vec::from("next\n"));
}

#[test]
fn read_lines_stops_at_a_line_beyond_the_capacity() {
    let mut data = Vec::from("first\n");
    data.extend(vec![b'x'; LINE_CAPACITY]);
    data.push(b'\n');
    data.extend_from_slice(b"never read\n");
    let read = read_lines(&data, Some(LINE_CAPACITY));
    assert!(!read.complete);
    assert_eq!(read.lines, vec![Vec::from("first\n")]);
}

#[test]
fn read_lines_accepts_an_open_last_line_of_the_capacity() {
    let data = vec![b'x'; LINE_CAPACITY];
    let read = read_lines(&data, Some(LINE_CAPACITY));
    assert!(read.complete);
    assert_eq!(read.lines, vec![vec![b'x'; LINE_CAPACITY]]);
    let longer = vec![b'x'; LINE_CAPACITY + 1];
    let read = read_lines(&longer, Some(LINE_CAPACITY));
    assert!(!read.complete);
    assert!(read.lines.is_empty());
}

#[test]
fn assembler_hands_out_a_line_at_each_line_feed() {
    let mut assembler = LineAssembler::new(None);
    assert!(matches!(assembler.push(b'a'), Fed::Pending));
    assert!(matches!(assembler.push(b'b'), Fed::Pending));
    match assembler.push(b'\n') {
        Fed::Line(line) => assert_eq!(line, Vec::from("ab\n")),
        other => panic!("unexpected: {:?}", other),
    }
    assert_eq!(assembler.finish(), None);
    assert!(matches!(assembler.push(b'c'), Fed::Pending));
    assert_eq!(assembler.finish(), Some(Vec::from("c")));
    assert_eq!(assembler.finish(), None);
}

#[test]
fn assembler_drops_a_line_that_is_too_long() {
    let mut assembler = LineAssembler::new(Some(2));
    assert!(matches!(assembler.push(b'a'), Fed::Pending));
    assert!(matches!(assembler.push(b'b'), Fed::Pending));
    assert!(matches!(assembler.push(b'c'), Fed::TooLong));
    assert_eq!(assembler.finish(), None);
    assert!(matches!(assembler.push(b'd'), Fed::Pending));
    match assembler.push(b'\n') {
        Fed::Line(line) => assert_eq!(line, Vec::from("d\n")),
        other => panic!("unexpected: {:?}", other),
    }
}

#[test]
fn assembler_limits_the_lines_of_packed_files_only() {
    let mut packed = LineAssembler::for_input(&Some(Compression::Gz));
    let mut archived = LineAssembler::for_input(&Some(Compression::TarGz("list.txt".to_string())));
    let mut plain = LineAssembler::for_input(&None);
    for _ in 0..LINE_CAPACITY {
        assert!(matches!(packed.push(b'x'), Fed::Pending));
        assert!(matches!(archived.push(b'x'), Fed::Pending));
        assert!(matches!(plain.push(b'x'), Fed::Pending));
    }
    assert!(matches!(packed.push(b'x'), Fed::TooLong));
    assert!(matches!(archived.push(b'\n'), Fed::TooLong));
    assert!(matches!(plain.push(b'x'), Fed::Pending));
}

#[test]
fn wanted_entry_is_found_by_its_components() {
    assert!(is_wanted_entry("lists/domains.txt", "lists/domains.txt"));
    assert!(is_wanted_entry("lists//domains.txt", "lists/domains.txt"));
    assert!(is_wanted_entry("lists/./domains.txt", "lists/domains.txt"));
    assert!(!is_wanted_entry("lists/domains.txt", "domains.txt"));
    assert!(!is_wanted_entry("lists/domains.txt", "lists/Domains.txt"));
}

#[test]
fn select_entry_takes_the_first_that_matches() {
    let entries = vec![
        "README".to_string(),
        "lists/domains.txt".to_string(),
        "lists//domains.txt".to_string(),
    ];
    assert_eq!(select_entry(&entries, "lists/domains.txt"), Some(1));
    assert_eq!(select_entry(&entries, "README"), Some(0));
    assert_eq!(select_entry(&entries, "missing"), None);
    assert_eq!(select_entry(&vec![], "missing"), None);
}
