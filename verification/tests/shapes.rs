use record_stream::{
    chat_variants, decode_all, generate_variants, DecodeError, DecodedRecord, FieldValue,
    ScalarValue, StreamEnd,
};

fn chunks_of(parts: &[&str]) -> Vec<Vec<u8>> {
    parts.iter().map(|p| p.as_bytes().to_vec()).collect()
}

fn field_value<'a>(rec: &'a DecodedRecord, key: &str) -> &'a FieldValue {
    &rec.fields.iter().find(|f| f.key == key).unwrap().value
}

fn message_content(rec: &DecodedRecord) -> String {
    match field_value(rec, "message") {
        FieldValue::Object(inner) => {
            let content = inner.iter().find(|f| f.key == "content").unwrap();
            match &content.value {
                Some(ScalarValue::Str(s)) => s.clone(),
                _ => panic!("content is not a string"),
            }
        },
        _ => panic!("message is not an object"),
    }
}

#[test]
fn chat_stream_decodes_messages_then_done() {
    let line1 = "{\"model\":\"llama2\",\"created_at\":\"2023-08-04T08:52:19.385406455-07:00\",\"message\":{\"role\":\"assistant\",\"content\":\"The quick \"},\"done\":false}\n";
    let line2 = "{\"model\":\"llama2\",\"created_at\":\"2023-08-04T08:52:19.385406455-07:00\",\"message\":{\"role\":\"assistant\",\"content\":\"brown fox\"},\"done\":false}\n";
    let line3 = "{\"model\":\"llama2\",\"created_at\":\"2023-08-04T19:22:45.499127Z\",\"eval_count\":282,\"done\":true}\n";
    let (records, end) = decode_all(chat_variants(), &chunks_of(&[line1, line2, line3]));
    assert!(matches!(end, StreamEnd::Finished));
    assert_eq!(records.len(), 3);
    assert_eq!(records[0].name, "data");
    assert_eq!(records[0].variant, 1);
    assert_eq!(records[1].name, "data");
    assert_eq!(records[2].name, "done");
    assert_eq!(records[2].variant, 0);
    assert_eq!(message_content(&records[0]), "The quick ");
    assert_eq!(message_content(&records[1]), "brown fox");
    match field_value(&records[2], "eval_count") {
        FieldValue::Scalar(ScalarValue::UInt(n)) => assert_eq!(*n, 282),
        _ => panic!("eval_count is not an integer"),
    }
    match field_value(&records[2], "done") {
        FieldValue::Scalar(ScalarValue::Bool(b)) => assert!(*b),
        _ => panic!("done is not a boolean"),
    }
}

#[test]
fn chat_done_wins_when_a_frame_satisfies_both() {
    let line = "{\"model\":\"m\",\"created_at\":\"t\",\"eval_count\":1,\"done\":true,\"message\":{\"role\":\"assistant\",\"content\":\"x\"}}\n";
    let (records, end) = decode_all(chat_variants(), &chunks_of(&[line]));
    assert!(matches!(end, StreamEnd::Finished));
    assert_eq!(records.len(), 1);
    assert_eq!(records[0].name, "done");
    assert_eq!(records[0].variant, 0);
}

#[test]
fn generate_stream_decodes_with_timestamps() {
    let line1 = "{\"model\":\"mistral:instruct\",\"created_at\":\"2023-08-04T19:22:45.499127Z\",\"response\":\"hello\",\"done\":false}\n";
    let line2 = "{\"model\":\"mistral:instruct\",\"created_at\":\"2023-08-04T19:22:45.499127Z\",\"eval_count\":7,\"done\":true}\n";
    let (records, end) = decode_all(generate_variants(), &chunks_of(&[line1, line2]));
    assert!(matches!(end, StreamEnd::Finished));
    assert_eq!(records.len(), 2);
    assert_eq!(records[0].name, "data");
    match field_value(&records[0], "response") {
        FieldValue::Scalar(ScalarValue::Str(s)) => assert_eq!(s, "hello"),
        _ => panic!("response is not a string"),
    }
    match field_value(&records[0], "created_at") {
        FieldValue::Scalar(ScalarValue::Time(s)) => {
            assert_eq!(s, "2023-08-04T19:22:45.499127Z")
        },
        _ => panic!("created_at is not a timestamp"),
    }
    assert_eq!(records[1].name, "done");
}

#[test]
fn generate_rejects_a_bad_timestamp() {
    let line = "{\"model\":\"m\",\"created_at\":\"yesterday\",\"response\":\"hello\",\"done\":false}\n";
    let (records, end) = decode_all(generate_variants(), &chunks_of(&[line]));
    assert_eq!(records.len(), 0);
    assert!(matches!(
        end,
        StreamEnd::Failed(DecodeError::UnrecognizedShape(_))
    ));
}

#[test]
fn optional_images_absent_null_or_present() {
    let absent = "{\"model\":\"m\",\"created_at\":\"t\",\"message\":{\"role\":\"r\",\"content\":\"c\"},\"done\":false}\n";
    let null = "{\"model\":\"m\",\"created_at\":\"t\",\"message\":{\"role\":\"r\",\"content\":\"c\",\"images\":null},\"done\":false}\n";
    let present = "{\"model\":\"m\",\"created_at\":\"t\",\"message\":{\"role\":\"r\",\"content\":\"c\",\"images\":\"img\"},\"done\":false}\n";
    let (records, end) = decode_all(chat_variants(), &chunks_of(&[absent, null, present]));
    assert!(matches!(end, StreamEnd::Finished));
    assert_eq!(records.len(), 3);
    for (i, expected) in [(0usize, None), (1, None), (2, Some("img".to_string()))] {
        match field_value(&records[i], "message") {
            FieldValue::Object(inner) => {
                let images = inner.iter().find(|f| f.key == "images").unwrap();
                match (&images.value, &expected) {
                    (None, None) => {},
                    (Some(ScalarValue::Str(s)), Some(e)) => assert_eq!(s, e),
                    _ => panic!("unexpected images value"),
                }
            },
            _ => panic!("message is not an object"),
        }
    }
}

#[test]
fn message_missing_required_content_is_unrecognized() {
    let line = "{\"model\":\"m\",\"created_at\":\"t\",\"message\":{\"role\":\"assistant\"},\"done\":false}\n";
    let (records, end) = decode_all(chat_variants(), &chunks_of(&[line]));
    assert_eq!(records.len(), 0);
    assert!(matches!(
        end,
        StreamEnd::Failed(DecodeError::UnrecognizedShape(_))
    ));
}

#[test]
fn negative_or_fractional_eval_count_is_unrecognized() {
    let negative = "{\"model\":\"m\",\"created_at\":\"t\",\"eval_count\":-1,\"done\":true}\n";
    let (records, end) = decode_all(chat_variants(), &chunks_of(&[negative]));
    assert_eq!(records.len(), 0);
    assert!(matches!(
        end,
        StreamEnd::Failed(DecodeError::UnrecognizedShape(_))
    ));

    let fractional = "{\"model\":\"m\",\"created_at\":\"t\",\"eval_count\":2.5,\"done\":true}\n";
    let (records, end) = decode_all(chat_variants(), &chunks_of(&[fractional]));
    assert_eq!(records.len(), 0);
    assert!(matches!(
        end,
        StreamEnd::Failed(DecodeError::UnrecognizedShape(_))
    ));
}

#[test]
fn wrongly_typed_field_is_unrecognized() {
    let line = "{\"model\":\"m\",\"created_at\":\"t\",\"eval_count\":1,\"done\":\"true\"}\n";
    let (records, end) = decode_all(chat_variants(), &chunks_of(&[line]));
    assert_eq!(records.len(), 0);
    assert!(matches!(
        end,
        StreamEnd::Failed(DecodeError::UnrecognizedShape(_))
    ));
}

#[test]
fn non_object_frame_is_unrecognized() {
    let line = "[1,2,3]\n";
    let (records, end) = decode_all(chat_variants(), &chunks_of(&[line]));
    assert_eq!(records.len(), 0);
    assert!(matches!(
        end,
        StreamEnd::Failed(DecodeError::UnrecognizedShape(_))
    ));
}
