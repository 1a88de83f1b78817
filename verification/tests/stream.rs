use record_stream::{
    decode_all, DecodeError, DecodedRecord, FieldReq, FieldType, PollStep, ScalarType, StreamEnd,
    StreamingRecordDecoder, VariantShape,
};

fn uint_shape(name: &str, key: &str) -> VariantShape {
    VariantShape {
        name: String::from(name),
        fields: vec![FieldReq {
            key: String::from(key),
            ty: FieldType::Scalar(ScalarType::UInt),
            required: true,
        }],
    }
}

fn two_uint_shape(name: &str, key1: &str, key2: &str) -> VariantShape {
    VariantShape {
        name: String::from(name),
        fields: vec![
            FieldReq {
                key: String::from(key1),
                ty: FieldType::Scalar(ScalarType::UInt),
                required: true,
            },
            FieldReq {
                key: String::from(key2),
                ty: FieldType::Scalar(ScalarType::UInt),
                required: true,
            },
        ],
    }
}

fn ab_shapes() -> Vec<VariantShape> {
    vec![uint_shape("a", "a"), uint_shape("b", "b")]
}

fn chunks_of(parts: &[&str]) -> Vec<Vec<u8>> {
    parts.iter().map(|p| p.as_bytes().to_vec()).collect()
}

fn names(records: &[DecodedRecord]) -> Vec<String> {
    records.iter().map(|r| r.name.clone()).collect()
}

#[test]
fn it_works() {
    let result = record_stream::add(2, 2);
    assert_eq!(result, 4);
}

#[test]
fn chunking_is_transparent() {
    let text = "{\"a\":1}\n{\"b\":2}\n";
    let one = chunks_of(&[text]);
    let byte_by_byte: Vec<Vec<u8>> = text.bytes().map(|b| vec![b]).collect();
    let (r1, e1) = decode_all(ab_shapes(), &one);
    let (r2, e2) = decode_all(ab_shapes(), &byte_by_byte);
    assert_eq!(names(&r1), vec!["a".to_string(), "b".to_string()]);
    assert_eq!(names(&r2), names(&r1));
    assert_eq!(r1[0].variant, 0);
    assert_eq!(r1[1].variant, 1);
    assert_eq!(r2[0].variant, 0);
    assert_eq!(r2[1].variant, 1);
    assert!(matches!(e1, StreamEnd::Finished));
    assert!(matches!(e2, StreamEnd::Finished));
}

#[test]
fn trailing_frame_without_newline() {
    let chunks = chunks_of(&["{\"a\":1}\n{\"b\":2}"]);
    let (records, end) = decode_all(ab_shapes(), &chunks);
    assert_eq!(names(&records), vec!["a".to_string(), "b".to_string()]);
    assert!(matches!(end, StreamEnd::Finished));
}

#[test]
fn blank_lines_are_skipped() {
    let chunks = chunks_of(&["{\"a\":1}\n\n{\"b\":2}\n"]);
    let (records, end) = decode_all(ab_shapes(), &chunks);
    assert_eq!(names(&records), vec!["a".to_string(), "b".to_string()]);
    assert!(matches!(end, StreamEnd::Finished));

    let spaced = chunks_of(&["{\"a\":1}\n \t\r\n{\"b\":2}\n"]);
    let (records, end) = decode_all(ab_shapes(), &spaced);
    assert_eq!(names(&records), vec!["a".to_string(), "b".to_string()]);
    assert!(matches!(end, StreamEnd::Finished));
}

#[test]
fn first_declared_variant_wins() {
    let text = "{\"a\":1,\"b\":2}\n";
    let (r1, _) = decode_all(
        vec![uint_shape("sub", "a"), two_uint_shape("sup", "a", "b")],
        &chunks_of(&[text]),
    );
    assert_eq!(names(&r1), vec!["sub".to_string()]);
    assert_eq!(r1[0].variant, 0);

    let (r2, _) = decode_all(
        vec![two_uint_shape("sup", "a", "b"), uint_shape("sub", "a")],
        &chunks_of(&[text]),
    );
    assert_eq!(names(&r2), vec!["sup".to_string()]);
    assert_eq!(r2[0].variant, 0);
}

#[test]
fn unmatched_object_is_unrecognized() {
    let chunks = chunks_of(&["{\"z\":9}\n"]);
    let (records, end) = decode_all(ab_shapes(), &chunks);
    assert_eq!(records.len(), 0);
    match end {
        StreamEnd::Failed(DecodeError::UnrecognizedShape(v)) => {
            let expected: serde_json::Value = serde_json::from_str("{\"z\":9}").unwrap();
            assert_eq!(v, expected);
        },
        _ => panic!("expected an unrecognized shape"),
    }
}

#[test]
fn malformed_frame_fails_with_raw_bytes() {
    let chunks = chunks_of(&["{\"a\":1}\nnot json\n{\"b\":2}\n"]);
    let (records, end) = decode_all(ab_shapes(), &chunks);
    assert_eq!(names(&records), vec!["a".to_string()]);
    match end {
        StreamEnd::Failed(DecodeError::MalformedFrame(bytes)) => {
            assert_eq!(bytes, b"not json".to_vec());
        },
        _ => panic!("expected a malformed frame"),
    }
}

#[test]
fn malformed_decoder_stays_terminal() {
    let mut dec = StreamingRecordDecoder::new(ab_shapes());
    dec.feed_chunk(&b"{\"a\":1}\nnot json\n{\"b\":2}\n".to_vec());
    dec.end_of_source();
    assert!(matches!(dec.poll_next(), PollStep::Item(_)));
    assert!(matches!(
        dec.poll_next(),
        PollStep::Failed(DecodeError::MalformedFrame(_))
    ));
    assert!(matches!(dec.poll_next(), PollStep::Finished));
    assert!(matches!(dec.poll_next(), PollStep::Finished));
}

#[test]
fn end_of_stream_is_sticky() {
    let mut dec = StreamingRecordDecoder::new(ab_shapes());
    dec.feed_chunk(&b"{\"a\":1}\n".to_vec());
    dec.end_of_source();
    assert!(matches!(dec.poll_next(), PollStep::Item(_)));
    for _ in 0..4 {
        assert!(matches!(dec.poll_next(), PollStep::Finished));
    }
}

#[test]
fn source_failure_reported_once_then_terminal() {
    let mut dec = StreamingRecordDecoder::new(ab_shapes());
    assert!(matches!(dec.poll_next(), PollStep::NeedChunk));
    dec.source_failed();
    assert!(matches!(
        dec.poll_next(),
        PollStep::Failed(DecodeError::SourceError)
    ));
    assert!(matches!(dec.poll_next(), PollStep::Finished));
}

#[test]
fn frame_split_across_chunks() {
    let chunks = chunks_of(&["{\"a\":", "1}\n"]);
    let (records, end) = decode_all(ab_shapes(), &chunks);
    assert_eq!(names(&records), vec!["a".to_string()]);
    assert!(matches!(end, StreamEnd::Finished));
}

#[test]
fn empty_stream_finishes_cleanly() {
    let chunks: Vec<Vec<u8>> = Vec::new();
    let (records, end) = decode_all(ab_shapes(), &chunks);
    assert_eq!(records.len(), 0);
    assert!(matches!(end, StreamEnd::Finished));
}

#[test]
fn whitespace_only_stream_finishes_cleanly() {
    let chunks = chunks_of(&[" \r\n \n  "]);
    let (records, end) = decode_all(ab_shapes(), &chunks);
    assert_eq!(records.len(), 0);
    assert!(matches!(end, StreamEnd::Finished));
}

#[test]
fn crlf_line_endings_are_accepted() {
    let chunks = chunks_of(&["{\"a\":1}\r\n{\"b\":2}\r\n"]);
    let (records, end) = decode_all(ab_shapes(), &chunks);
    assert_eq!(names(&records), vec!["a".to_string(), "b".to_string()]);
    assert!(matches!(end, StreamEnd::Finished));
}

#[test]
fn two_values_in_one_frame_are_malformed() {
    let chunks = chunks_of(&["{\"a\":1} {\"b\":2}\n"]);
    let (records, end) = decode_all(ab_shapes(), &chunks);
    assert_eq!(records.len(), 0);
    assert!(matches!(
        end,
        StreamEnd::Failed(DecodeError::MalformedFrame(_))
    ));
}

#[test]
fn polls_ask_for_input_until_a_frame_completes() {
    let mut dec = StreamingRecordDecoder::new(ab_shapes());
    assert!(matches!(dec.poll_next(), PollStep::NeedChunk));
    dec.feed_chunk(&b"{\"a\":1}".to_vec());
    assert!(matches!(dec.poll_next(), PollStep::NeedChunk));
    dec.feed_chunk(&b"\n".to_vec());
    match dec.poll_next() {
        PollStep::Item(d) => assert_eq!(d.name, "a"),
        _ => panic!("expected a record"),
    }
}
