use rancher_mcp_proxy::sse::SseReader;

fn events(chunks: &[&[u8]]) -> (Vec<String>, Option<String>) {
    let mut reader = SseReader::new();
    let mut out = vec![];
    for chunk in chunks {
        reader.feed(chunk);
        while let Some(data) = reader.next_event() {
            out.push(data);
        }
    }
    let last = reader.finish();
    (out, last)
}

#[test]
fn data_lines_of_an_event_are_joined() {
    let (out, last) = events(&[b"data: a\ndata:b\ndata:  c\n\n"]);
    assert_eq!(out, vec!["a\nb\n c"]);
    assert_eq!(last, None);
}

#[test]
fn carriage_returns_at_the_end_of_a_line_are_dropped() {
    let (out, _) = events(&[b"data: a\r\n\r\ndata: b\r\r\n\n"]);
    assert_eq!(out, vec!["a", "b"]);
}

#[test]
fn other_fields_and_comments_are_passed_over() {
    let (out, last) = events(&[b": hi\nevent: x\nid: 4\n\n\ndata\ndata: a\nretry: 3\n\n"]);
    assert_eq!(out, vec!["a"]);
    assert_eq!(last, None);
}

#[test]
fn empty_data_makes_an_event() {
    let (out, _) = events(&[b"data:\n\n"]);
    assert_eq!(out, vec![""]);
}

#[test]
fn chunks_do_not_matter() {
    let stream: &[u8] = b"data: caf\xc3\xa9\ndata: b\n\ndata: c\n\ndata: d\n";
    let whole = events(&[stream]);
    assert_eq!(whole.0, vec!["café\nb", "c"]);
    assert_eq!(whole.1.as_deref(), Some("d"));
    for cut in 0..stream.len() {
        assert_eq!(events(&[&stream[..cut], &stream[cut..]]), whole, "cut at {cut}");
    }
    let single: Vec<&[u8]> = stream.chunks(1).collect();
    assert_eq!(events(&single), whole);
}

#[test]
fn ill_formed_bytes_are_replaced() {
    let (out, _) = events(&[b"data: a\xffb\n\n"]);
    assert_eq!(out, vec!["a\u{fffd}b"]);
}

#[test]
fn unfinished_line_is_no_part_of_the_last_event() {
    let (out, last) = events(&[b"data: a\ndata: b"]);
    assert!(out.is_empty());
    assert_eq!(last.as_deref(), Some("a"));
}

#[test]
fn framed_event_is_read_back() {
    let (out, last) = events(&[b"data: one\ndata: two\n\n"]);
    assert_eq!(out, vec!["one\ntwo"]);
    assert_eq!(last, None);
}
