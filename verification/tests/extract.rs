use filter_pipeline::filter_controller::{process, PassThrough, TransformError};
use filter_pipeline::filter_list::FilterList;
use filter_pipeline::input::file::read_lines;
use filter_pipeline::stages::extract::{regex_match, token_line, RegexMatch};

fn list(id: &str, regex: &str) -> FilterList {
    FilterList {
        id: id.to_string(),
        comment: None,
        compression: None,
        source: String::new(),
        tags: vec![],
        regex: regex.to_string(),
    }
}

#[test]
fn test_regex_match_positive() {
    let filter_list = list("test_list", "^0.0.0.0 (.*)");
    let chunk = Vec::from("0.0.0.0 domain.tech\n");

    let got = regex_match(&filter_list, Some(chunk)).unwrap().unwrap();
    let want = Vec::from("domain.tech\n");

    assert_eq!(got, want);
}

#[test]
fn test_regex_no_match_comment() {
    let filter_list = list("test_list", "^0.0.0.0 (.*)");
    let chunk = Vec::from("# some comment\n");

    let got = regex_match(&filter_list, Some(chunk)).unwrap();
    let want: Option<Vec<u8>> = None;

    assert_eq!(got, want);
}

#[test]
fn test_extract_successful() {
    let filter_list = list("test", r"127.0.0.1 (.*)");
    let input = Vec::from("\n127.0.0.1 one.domain\n127.0.0.1 another.domain\n");
    let read = read_lines(&input, None);
    assert!(read.complete);

    let report = process(&filter_list, &RegexMatch, &read.lines);

    let want = "one.domain\nanother.domain\n";
    assert_eq!(String::from_utf8(report.output).unwrap(), want);
    assert_eq!(report.chunks_matched, 2);
    assert_eq!(report.chunks_skipped, 1);
    assert!(report.failure.is_none());
}

#[test]
fn test_process() {
    let input_data = "line one\nline two\n";
    let read = read_lines(&Vec::from(input_data), None);
    let filter_list = list("", "");

    let report = process(&filter_list, &PassThrough, &read.lines);

    assert!(String::from_utf8_lossy(&report.output).starts_with(input_data));
    assert_eq!(report.chunks_matched, 2);
    assert_eq!(report.chunks_skipped, 0);
}

#[test]
fn regex_match_without_a_chunk_yields_nothing() {
    let filter_list = list("test_list", "(.*)");
    assert_eq!(regex_match(&filter_list, None).unwrap(), None);
}

#[test]
fn regex_match_rejects_bytes_that_are_not_utf8() {
    let filter_list = list("test_list", "(.*)");
    let got = regex_match(&filter_list, Some(vec![0x66, 0xff, 0x0a]));
    assert!(matches!(got, Err(TransformError::InvalidUtf8)));
}

#[test]
fn regex_match_names_the_list_of_a_refused_expression() {
    let filter_list = list("broken", "(unclosed");
    match regex_match(&filter_list, Some(Vec::from("a line\n"))) {
        Err(TransformError::Regex(message)) => {
            assert!(message.starts_with("List broken - "));
            assert!(message.len() > "List broken - ".len());
        }
        other => panic!("unexpected: {:?}", other),
    }
}

#[test]
fn regex_match_without_a_first_group_yields_nothing() {
    let filter_list = list("plain", "^0.0.0.0 .*");
    let got = regex_match(&filter_list, Some(Vec::from("0.0.0.0 a.example\n")));
    assert_eq!(got.unwrap(), None);
}

#[test]
fn regex_match_lets_the_end_anchor_match_before_the_line_feed() {
    let filter_list = list("ads", r"^0\.0\.0\.0 (.*)$");
    let got = regex_match(&filter_list, Some(Vec::from("0.0.0.0 a.example\n"))).unwrap();
    assert_eq!(got, Some(Vec::from("a.example\n")));
    let last = regex_match(&filter_list, Some(Vec::from("0.0.0.0 b.example"))).unwrap();
    assert_eq!(last, Some(Vec::from("b.example\n")));
}

#[test]
fn regex_match_strips_one_line_feed_only() {
    let filter_list = list("l", r"^(a)$");
    assert_eq!(regex_match(&filter_list, Some(Vec::from("a\n\n"))).unwrap(), None);
}

#[test]
fn regex_match_takes_the_leftmost_match() {
    let filter_list = list("l", "b(.)");
    let got = regex_match(&filter_list, Some(Vec::from("abcbd"))).unwrap();
    assert_eq!(got, Some(Vec::from("c\n")));
}

#[test]
fn token_line_appends_exactly_one_line_feed() {
    let filter_list = list("l", "(.*)");
    let got = token_line(&filter_list, Ok(Some("a.example".to_string()))).unwrap();
    assert_eq!(got, Some(Vec::from("a.example\n")));
    let none = token_line(&filter_list, Ok(None)).unwrap();
    assert_eq!(none, None);
    match token_line(&filter_list, Err("bad".to_string())) {
        Err(TransformError::Regex(message)) => assert_eq!(message, "List l - bad"),
        other => panic!("unexpected: {:?}", other),
    }
}

#[test]
fn process_leaves_out_a_chunk_that_is_not_utf8_and_goes_on() {
    let filter_list = list("l", "^x (.*)$");
    let chunks = vec![
        Vec::from("x one\n"),
        Vec::from("skip me\n"),
        vec![0xff, 0x0a],
        Vec::from("x two\n"),
    ];
    let report = process(&filter_list, &RegexMatch, &chunks);
    assert_eq!(report.output, Vec::from("one\ntwo\n"));
    assert_eq!(report.chunks_matched, 2);
    assert_eq!(report.chunks_skipped, 2);
    assert!(report.failure.is_none());
}
