use commander::extractor::extract_frames;

#[test]
fn empty_buffer_yields_nothing() {
    let mut buf: Vec<u8> = Vec::new();
    let msgs = extract_frames(&mut buf);
    assert!(msgs.is_empty());
    assert!(buf.is_empty());
}

#[test]
fn single_value_consumed_whole() {
    let mut buf = b"{\"a\":1}".to_vec();
    let msgs = extract_frames(&mut buf);
    assert_eq!(msgs, vec!["{\"a\":1}".to_string()]);
    assert!(buf.is_empty());
}

#[test]
fn null_padding_between_values() {
    let mut buf = b"{\"a\":1}\x00\x00{\"b\":2}\x00".to_vec();
    let msgs = extract_frames(&mut buf);
    assert_eq!(msgs, vec!["{\"a\":1}".to_string(), "{\"b\":2}".to_string()]);
    assert!(buf.is_empty());
}

#[test]
fn null_only_buffer_consumed_silently() {
    let mut buf = b"\x00\x00\x00".to_vec();
    let msgs = extract_frames(&mut buf);
    assert!(msgs.is_empty());
    assert!(buf.is_empty());
}

#[test]
fn truncated_value_waits_for_rest() {
    let mut buf = b"{\"x\":".to_vec();
    let msgs = extract_frames(&mut buf);
    assert!(msgs.is_empty());
    assert_eq!(buf, b"{\"x\":".to_vec());

    buf.extend_from_slice(b"1}");
    let msgs = extract_frames(&mut buf);
    assert_eq!(msgs, vec!["{\"x\":1}".to_string()]);
    assert!(buf.is_empty());
}

#[test]
fn one_byte_at_a_time_stream() {
    let data = b"{\"a\":1}\x00[1,2]\x00\"x\"\x00null";
    let mut buf: Vec<u8> = Vec::new();
    let mut got: Vec<String> = Vec::new();
    for &b in data.iter() {
        buf.push(b);
        got.extend(extract_frames(&mut buf));
    }
    assert_eq!(
        got,
        vec![
            "{\"a\":1}".to_string(),
            "[1,2]".to_string(),
            "\"x\"".to_string(),
            "null".to_string(),
        ]
    );
    assert!(buf.is_empty());
}

#[test]
fn garbage_between_values_resyncs() {
    let mut buf = b"{\"a\":1}@@@{\"b\":2}".to_vec();
    let msgs = extract_frames(&mut buf);
    assert_eq!(msgs, vec!["{\"a\":1}".to_string(), "{\"b\":2}".to_string()]);
    assert!(buf.is_empty());
}

#[test]
fn leading_garbage_then_value() {
    let mut buf = b"garbage{\"c\":3}".to_vec();
    let msgs = extract_frames(&mut buf);
    assert_eq!(msgs, vec!["{\"c\":3}".to_string()]);
    assert!(buf.is_empty());
}

#[test]
fn malformed_alone_emits_nothing() {
    let mut buf = b"@@@".to_vec();
    let msgs = extract_frames(&mut buf);
    assert!(msgs.is_empty());
    assert!(buf.is_empty());
}

#[test]
fn whitespace_only_is_drained() {
    let mut buf = b"  \n\t ".to_vec();
    let msgs = extract_frames(&mut buf);
    assert!(msgs.is_empty());
    assert!(buf.is_empty());
}

#[test]
fn reserialization_is_compact_and_canonical() {
    let mut buf = b" {\"b\": 2,\n \"a\": 1} ".to_vec();
    let msgs = extract_frames(&mut buf);
    assert_eq!(msgs, vec!["{\"a\":1,\"b\":2}".to_string()]);
    assert!(buf.is_empty());
}
