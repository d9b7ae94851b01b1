use multipart_decode::driver::{decode, parse, Decoder, Event, FieldSegment, Request, Step};
use multipart_decode::error::DecodeError;
use multipart_decode::field::FieldMeta;
use multipart_decode::schema::{FieldSpec, FieldType, Kind, Policy, Shape, ValidationError};
use multipart_decode::{Document, File, Value};

fn text(s: &str) -> Value {
    Value::Text(s.to_string())
}

fn meta(name: Option<&str>, filename: Option<&str>, content_type: &str) -> FieldMeta {
    FieldMeta {
        name: name.map(|s| s.to_string()),
        filename: filename.map(|s| s.to_string()),
        content_type: content_type.to_string(),
    }
}

fn scalar(name: &str, value: &str) -> FieldSegment {
    FieldSegment {
        meta: meta(Some(name), None, "text/plain"),
        chunks: vec![value.as_bytes().to_vec()],
        broken: false,
    }
}

fn attachment(name: &str, filename: &str, content_type: &str, chunks: Vec<Vec<u8>>) -> FieldSegment {
    FieldSegment { meta: meta(Some(name), Some(filename), content_type), chunks, broken: false }
}

fn field(name: &str, ty: FieldType, required: bool) -> FieldSpec {
    FieldSpec { name: name.to_string(), ty, required }
}

fn document(entries: Vec<(&str, Value)>) -> Document {
    let mut doc = Document::new();
    for (key, value) in entries {
        doc.set(key.to_string(), value);
    }
    doc
}

fn proceed(step: Step) -> Decoder {
    match step {
        Step::Continue(decoder) => decoder,
        other => panic!("the decode ended: {:?}", other),
    }
}

#[test]
fn decode_of_no_fields_is_the_empty_document() {
    assert_eq!(decode(vec![]), Ok(Document::new()));
}

#[test]
fn scalars_and_array_fields_into_a_shape() {
    let fields = vec![
        scalar("age", "30"),
        scalar("active", "true"),
        scalar("tag[]", "a"),
        scalar("tag[]", "b"),
    ];
    let shape = Shape {
        fields: vec![
            field("age", FieldType::Integer, true),
            field("active", FieldType::Boolean, true),
            field("tag", FieldType::Sequence(Box::new(FieldType::Text)), true),
        ],
        policy: Policy::Strict,
    };
    let target = parse(fields, &shape).unwrap();
    assert_eq!(target.get("age"), Some(&Value::Integer(30)));
    assert_eq!(target.get("active"), Some(&Value::Bool(true)));
    assert_eq!(target.get("tag"), Some(&Value::Sequence(vec![text("a"), text("b")])));
    assert_eq!(target.len(), 3);
    assert_eq!(
        target.into_inner(),
        document(vec![
            ("age", Value::Integer(30)),
            ("active", Value::Bool(true)),
            ("tag", Value::Sequence(vec![text("a"), text("b")])),
        ])
    );
}

#[test]
fn attachment_into_a_shape_with_a_file_field() {
    let body: Vec<u8> = vec![0x89, 0x50, 0x4e, 0x47, 0x0d, 0x0a, 0x1a, 0x0a];
    let fields = vec![attachment("avatar", "pic.png", "image/png", vec![body.clone()])];
    let shape = Shape {
        fields: vec![field("avatar", FieldType::File, true)],
        policy: Policy::Strict,
    };
    let target = parse(fields, &shape).unwrap();
    match target.get("avatar") {
        Some(Value::File(file)) => {
            assert_eq!(file.name(), "pic.png");
            assert_eq!(file.content_type(), "image/png");
            assert_eq!(file.data(), &body);
            assert_eq!(file.len(), 8);
        },
        other => panic!("no file under avatar: {:?}", other),
    }
}

#[test]
fn wrong_kind_fails_validation_and_names_the_field() {
    let shape = Shape {
        fields: vec![field("age", FieldType::Integer, true)],
        policy: Policy::Permissive,
    };
    match parse(vec![scalar("age", "thirty")], &shape) {
        Err(DecodeError::Validation(error)) => {
            assert_eq!(error.field(), "age");
            assert_eq!(
                error,
                ValidationError::WrongKind {
                    field: "age".to_string(),
                    expected: Kind::Integer,
                    found: Kind::Text,
                }
            );
        },
        _ => panic!("no validation error"),
    }
}

#[test]
fn attachment_is_never_coerced() {
    let fields = vec![
        attachment("n", "n.txt", "text/plain", vec![b"42".to_vec()]),
        attachment("b", "", "text/plain", vec![b"true".to_vec()]),
        attachment("bad", "x", "text/plain", vec![vec![0xff, 0xfe]]),
    ];
    let doc = decode(fields).unwrap();
    assert_eq!(
        doc.get("n"),
        Some(&Value::File(File::new("text/plain".to_string(), "n.txt".to_string(), b"42".to_vec())))
    );
    assert_eq!(
        doc.get("b"),
        Some(&Value::File(File::new("text/plain".to_string(), "".to_string(), b"true".to_vec())))
    );
    assert_eq!(
        doc.get("bad"),
        Some(&Value::File(File::new("text/plain".to_string(), "x".to_string(), vec![0xff, 0xfe])))
    );
}

#[test]
fn attachment_data_is_all_chunks_in_order() {
    let fields = vec![attachment(
        "f",
        "f.bin",
        "application/octet-stream",
        vec![vec![1, 2], vec![], vec![3], vec![4, 5, 6]],
    )];
    let doc = decode(fields).unwrap();
    match doc.get("f") {
        Some(Value::File(file)) => {
            assert_eq!(file.data(), &vec![1, 2, 3, 4, 5, 6]);
            assert_eq!(file.len(), 2 + 0 + 1 + 3);
        },
        other => panic!("no file: {:?}", other),
    }
}

#[test]
fn attachment_without_chunks_is_an_empty_file() {
    let doc = decode(vec![attachment("f", "f.bin", "a/b", vec![])]).unwrap();
    assert_eq!(
        doc.get("f"),
        Some(&Value::File(File::new("a/b".to_string(), "f.bin".to_string(), vec![])))
    );
}

#[test]
fn attachments_under_an_array_name_append() {
    let fields = vec![
        attachment("files[]", "a", "t", vec![vec![1]]),
        attachment("files[]", "b", "t", vec![vec![2]]),
    ];
    let doc = decode(fields).unwrap();
    assert_eq!(
        doc.get("files"),
        Some(&Value::Sequence(vec![
            Value::File(File::new("t".to_string(), "a".to_string(), vec![1])),
            Value::File(File::new("t".to_string(), "b".to_string(), vec![2])),
        ]))
    );
}

#[test]
fn scalar_reads_its_first_chunk_only() {
    let fields = vec![FieldSegment {
        meta: meta(Some("n"), None, "text/plain"),
        chunks: vec![b"12".to_vec(), b"34".to_vec()],
        broken: false,
    }];
    assert_eq!(decode(fields).unwrap().get("n"), Some(&Value::Integer(12)));
}

#[test]
fn scalar_does_not_see_a_failure_behind_its_first_chunk() {
    let fields = vec![FieldSegment {
        meta: meta(Some("n"), None, "text/plain"),
        chunks: vec![b"12".to_vec()],
        broken: true,
    }];
    assert_eq!(decode(fields).unwrap().get("n"), Some(&Value::Integer(12)));
}

#[test]
fn scalar_without_a_chunk_is_null() {
    let fields = vec![FieldSegment {
        meta: meta(Some("n"), None, "text/plain"),
        chunks: vec![],
        broken: false,
    }];
    let doc = decode(fields).unwrap();
    assert_eq!(doc.get("n"), Some(&Value::Null));
    assert_eq!(doc.len(), 1);
}

#[test]
fn scalar_with_an_empty_chunk_is_empty_text() {
    let doc = decode(vec![scalar("n", "")]).unwrap();
    assert_eq!(doc.get("n"), Some(&text("")));
}

#[test]
fn scalar_with_invalid_utf8_is_null_and_the_decode_goes_on() {
    let fields = vec![
        FieldSegment {
            meta: meta(Some("bad"), None, "text/plain"),
            chunks: vec![vec![0xff, 0xfe]],
            broken: false,
        },
        scalar("age", "30"),
    ];
    let doc = decode(fields).unwrap();
    assert_eq!(doc.get("bad"), Some(&Value::Null));
    assert_eq!(doc.get("age"), Some(&Value::Integer(30)));
}

#[test]
fn field_without_name_fails_the_whole_decode() {
    let fields = vec![
        scalar("age", "30"),
        FieldSegment { meta: meta(None, None, "text/plain"), chunks: vec![b"x".to_vec()], broken: false },
        scalar("name", "x"),
    ];
    assert_eq!(decode(fields), Err(DecodeError::MalformedField));
}

#[test]
fn field_without_name_yields_no_target_value() {
    let fields = vec![
        scalar("age", "30"),
        FieldSegment {
            meta: meta(None, Some("pic.png"), "image/png"),
            chunks: vec![vec![1]],
            broken: false,
        },
    ];
    let shape = Shape { fields: vec![], policy: Policy::Permissive };
    match parse(fields, &shape) {
        Err(DecodeError::MalformedField) => {},
        _ => panic!("the decode did not fail as malformed"),
    }
}

#[test]
fn broken_attachment_fails_with_the_transport() {
    let fields = vec![
        scalar("age", "30"),
        FieldSegment {
            meta: meta(Some("f"), Some("f.bin"), "a/b"),
            chunks: vec![vec![1, 2]],
            broken: true,
        },
    ];
    assert_eq!(decode(fields), Err(DecodeError::Transport));
}

#[test]
fn broken_scalar_without_a_chunk_fails_with_the_transport() {
    let fields = vec![FieldSegment {
        meta: meta(Some("n"), None, "text/plain"),
        chunks: vec![],
        broken: true,
    }];
    assert_eq!(decode(fields), Err(DecodeError::Transport));
}

#[test]
fn the_first_failure_is_the_error() {
    let broken = FieldSegment {
        meta: meta(Some("f"), Some("f.bin"), "a/b"),
        chunks: vec![],
        broken: true,
    };
    let nameless =
        FieldSegment { meta: meta(None, None, "text/plain"), chunks: vec![], broken: false };
    assert_eq!(
        decode(vec![
            FieldSegment {
                meta: meta(Some("f"), Some("f.bin"), "a/b"),
                chunks: vec![],
                broken: true,
            },
            FieldSegment { meta: meta(None, None, "text/plain"), chunks: vec![], broken: false },
        ]),
        Err(DecodeError::Transport)
    );
    assert_eq!(decode(vec![nameless, broken]), Err(DecodeError::MalformedField));
}

#[test]
fn repeated_plain_fields_overwrite() {
    let fields = vec![scalar("color", "red"), scalar("size", "3"), scalar("color", "blue")];
    assert_eq!(
        decode(fields),
        Ok(document(vec![("color", text("blue")), ("size", Value::Integer(3))]))
    );
}

#[test]
fn decoder_starts_by_asking_for_a_field() {
    assert_eq!(Decoder::new().request(), Request::Field);
}

#[test]
fn decoder_walks_through_scalar_and_attachment() {
    let decoder = Decoder::new();
    let decoder = proceed(decoder.step(Event::Field(meta(Some("age"), None, "text/plain"))));
    assert_eq!(decoder.request(), Request::Chunk);
    let decoder = proceed(decoder.step(Event::Chunk(b"30".to_vec())));
    assert_eq!(decoder.request(), Request::Field);
    let decoder = proceed(decoder.step(Event::Field(meta(Some("f"), Some("f.bin"), "a/b"))));
    assert_eq!(decoder.request(), Request::Chunk);
    let decoder = proceed(decoder.step(Event::Chunk(vec![1, 2])));
    assert_eq!(decoder.request(), Request::Chunk);
    let decoder = proceed(decoder.step(Event::Chunk(vec![3])));
    assert_eq!(decoder.request(), Request::Chunk);
    let decoder = proceed(decoder.step(Event::NoMoreChunks));
    assert_eq!(decoder.request(), Request::Field);
    match decoder.step(Event::NoMoreFields) {
        Step::Done(doc) => {
            assert_eq!(
                doc,
                document(vec![
                    ("age", Value::Integer(30)),
                    ("f", Value::File(File::new("a/b".to_string(), "f.bin".to_string(), vec![1, 2, 3]))),
                ])
            );
        },
        other => panic!("not done: {:?}", other),
    }
}

#[test]
fn decoder_merges_null_for_a_scalar_without_chunk() {
    let decoder = proceed(Decoder::new().step(Event::Field(meta(Some("n"), None, ""))));
    let decoder = proceed(decoder.step(Event::NoMoreChunks));
    match decoder.step(Event::NoMoreFields) {
        Step::Done(doc) => assert_eq!(doc, document(vec![("n", Value::Null)])),
        other => panic!("not done: {:?}", other),
    }
}

#[test]
fn decoder_fails_on_a_field_without_name() {
    match Decoder::new().step(Event::Field(meta(None, None, "text/plain"))) {
        Step::Failed(e) => assert_eq!(e, DecodeError::MalformedField),
        other => panic!("not failed: {:?}", other),
    }
}

#[test]
fn decoder_fails_on_a_transport_failure() {
    match Decoder::new().step(Event::Failure) {
        Step::Failed(e) => assert_eq!(e, DecodeError::Transport),
        other => panic!("not failed: {:?}", other),
    }
    let decoder = proceed(Decoder::new().step(Event::Field(meta(Some("n"), None, ""))));
    match decoder.step(Event::Failure) {
        Step::Failed(e) => assert_eq!(e, DecodeError::Transport),
        other => panic!("not failed: {:?}", other),
    }
    let decoder = proceed(Decoder::new().step(Event::Field(meta(Some("f"), Some("x"), ""))));
    let decoder = proceed(decoder.step(Event::Chunk(vec![1])));
    match decoder.step(Event::Failure) {
        Step::Failed(e) => assert_eq!(e, DecodeError::Transport),
        other => panic!("not failed: {:?}", other),
    }
}

#[test]
fn decoder_fails_on_an_answer_to_a_request_it_did_not_make() {
    match Decoder::new().step(Event::Chunk(vec![1])) {
        Step::Failed(e) => assert_eq!(e, DecodeError::Transport),
        other => panic!("not failed: {:?}", other),
    }
    match Decoder::new().step(Event::NoMoreChunks) {
        Step::Failed(e) => assert_eq!(e, DecodeError::Transport),
        other => panic!("not failed: {:?}", other),
    }
    let decoder = proceed(Decoder::new().step(Event::Field(meta(Some("n"), None, ""))));
    match decoder.step(Event::NoMoreFields) {
        Step::Failed(e) => assert_eq!(e, DecodeError::Transport),
        other => panic!("not failed: {:?}", other),
    }
    let decoder = proceed(Decoder::new().step(Event::Field(meta(Some("f"), Some("x"), ""))));
    match decoder.step(Event::Field(meta(Some("g"), None, ""))) {
        Step::Failed(e) => assert_eq!(e, DecodeError::Transport),
        other => panic!("not failed: {:?}", other),
    }
}

#[test]
fn written_down_and_decoded_a_document_comes_back() {
    let avatar = File::new("image/png".to_string(), "pic.png".to_string(), vec![0x89, 0x50]);
    let sent = document(vec![
        ("age", Value::Integer(-30)),
        ("active", Value::Bool(false)),
        ("name", text("J\u{fc}rgen")),
        ("nothing", Value::Null),
        ("avatar", Value::File(avatar.clone())),
        (
            "tag",
            Value::Sequence(vec![text("a"), Value::Integer(7), Value::Bool(true), Value::Null]),
        ),
        ("files", Value::Sequence(vec![Value::File(avatar.clone())])),
    ]);
    let no_chunk = |name: &str| FieldSegment {
        meta: meta(Some(name), None, ""),
        chunks: vec![],
        broken: false,
    };
    let fields = vec![
        scalar("age", "-30"),
        scalar("active", "false"),
        scalar("name", "J\u{fc}rgen"),
        no_chunk("nothing"),
        attachment("avatar", "pic.png", "image/png", vec![vec![0x89, 0x50]]),
        scalar("tag[]", "a"),
        scalar("tag[]", "7"),
        scalar("tag[]", "true"),
        no_chunk("tag[]"),
        attachment("files[]", "pic.png", "image/png", vec![vec![0x89, 0x50]]),
    ];
    assert_eq!(decode(fields), Ok(sent));
}

#[test]
fn text_that_reads_as_an_integer_does_not_come_back_as_text() {
    assert_eq!(decode(vec![scalar("zip", "007")]), Ok(document(vec![("zip", Value::Integer(7))])));
}
