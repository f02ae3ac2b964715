use sleipnir::framing::split_frames;

fn split(s: &str) -> (Vec<String>, usize) {
    let (frames, used) = split_frames(s.as_bytes());
    (frames.into_iter().map(|f| String::from_utf8(f).unwrap()).collect(), used)
}

#[test]
fn one_frame() {
    let (frames, used) = split("{\"a\":1}");
    assert_eq!(frames, vec!["{\"a\":1}"]);
    assert_eq!(used, 7);
}

#[test]
fn two_frames_in_one_read() {
    let input = "{\"a\":{\"b\":2}}\n{\"c\":3}";
    let (frames, used) = split(input);
    assert_eq!(frames, vec!["{\"a\":{\"b\":2}}", "{\"c\":3}"]);
    assert_eq!(used, input.len());
}

#[test]
fn unfinished_frame_stays() {
    let input = "{\"a\":1} {\"b\":";
    let (frames, used) = split(input);
    assert_eq!(frames, vec!["{\"a\":1}"]);
    assert_eq!(used, 8);
    assert_eq!(&input[used..], "{\"b\":");
}

#[test]
fn braces_and_quotes_inside_strings() {
    let input = r#"{"q":"} { \" }","r":"\\"}"#;
    let (frames, used) = split(input);
    assert_eq!(frames, vec![input]);
    assert_eq!(used, input.len());
}

#[test]
fn garbage_between_frames_is_skipped() {
    let (frames, used) = split("xx}{\"a\":1}yy");
    assert_eq!(frames, vec!["{\"a\":1}"]);
    assert_eq!(used, 12);
}

#[test]
fn empty_input() {
    let (frames, used) = split("");
    assert!(frames.is_empty());
    assert_eq!(used, 0);
}

use sleipnir::framing::{FrameBuffer, MAX_PENDING};

fn push(b: &mut FrameBuffer, s: &str) -> Vec<String> {
    b.push_chunk(s.as_bytes()).into_iter().map(|f| String::from_utf8(f).unwrap()).collect()
}

#[test]
fn frame_cut_across_reads_is_assembled() {
    let mut b = FrameBuffer::new();
    assert!(push(&mut b, "{\"transaction_id\":\"tx_1\",").is_empty());
    assert_eq!(push(&mut b, "\"agent_id\":\"a\"}"), vec!["{\"transaction_id\":\"tx_1\",\"agent_id\":\"a\"}"]);
    assert_eq!(push(&mut b, "{\"b\":2}"), vec!["{\"b\":2}"]);
}

#[test]
fn stray_brace_does_not_block_later_frames() {
    let mut b = FrameBuffer::new();
    assert!(push(&mut b, "{").is_empty());
    assert_eq!(push(&mut b, "{\"a\":1}"), vec!["{\"a\":1}"]);
    assert!(push(&mut b, "{\"cut\": \"tx").is_empty());
    assert_eq!(push(&mut b, "{\"a\":1}{\"b\":2}"), vec!["{\"a\":1}", "{\"b\":2}"]);
}

#[test]
fn end_of_one_frame_with_start_of_next() {
    let mut b = FrameBuffer::new();
    assert!(push(&mut b, "{\"a\":").is_empty());
    assert_eq!(push(&mut b, "1}{\"b\":"), vec!["{\"a\":1}"]);
    assert_eq!(push(&mut b, "2}"), vec!["{\"b\":2}"]);
}

#[test]
fn oversized_open_object_is_dropped() {
    let mut b = FrameBuffer::new();
    let mut big = String::from("{\"x\":\"");
    big.push_str(&"y".repeat(MAX_PENDING));
    assert!(push(&mut b, &big).is_empty());
    assert_eq!(push(&mut b, "\"}"), Vec::<String>::new());
    assert_eq!(push(&mut b, "{\"a\":1}"), vec!["{\"a\":1}"]);
}
