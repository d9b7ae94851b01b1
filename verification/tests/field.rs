use multipart_decode::error::DecodeError;
use multipart_decode::field::{classify, collect, FieldClass, FieldMeta};
use multipart_decode::File;

fn meta(name: Option<&str>, filename: Option<&str>, content_type: &str) -> FieldMeta {
    FieldMeta {
        name: name.map(|s| s.to_string()),
        filename: filename.map(|s| s.to_string()),
        content_type: content_type.to_string(),
    }
}

#[test]
fn field_without_file_name_is_scalar() {
    assert_eq!(
        classify(meta(Some("age"), None, "text/plain")),
        Ok(FieldClass::Scalar { name: "age".to_string() })
    );
}

#[test]
fn field_with_file_name_is_attachment() {
    assert_eq!(
        classify(meta(Some("avatar"), Some("pic.png"), "image/png")),
        Ok(FieldClass::Attachment {
            name: "avatar".to_string(),
            filename: "pic.png".to_string(),
            content_type: "image/png".to_string(),
        })
    );
}

#[test]
fn empty_file_name_still_makes_an_attachment() {
    assert_eq!(
        classify(meta(Some("avatar"), Some(""), "application/octet-stream")),
        Ok(FieldClass::Attachment {
            name: "avatar".to_string(),
            filename: "".to_string(),
            content_type: "application/octet-stream".to_string(),
        })
    );
}

#[test]
fn field_without_name_is_malformed() {
    assert_eq!(classify(meta(None, None, "text/plain")), Err(DecodeError::MalformedField));
    assert_eq!(
        classify(meta(None, Some("pic.png"), "image/png")),
        Err(DecodeError::MalformedField)
    );
}

#[test]
fn empty_name_is_a_name() {
    assert_eq!(
        classify(meta(Some(""), None, "text/plain")),
        Ok(FieldClass::Scalar { name: "".to_string() })
    );
}

#[test]
fn collect_lays_chunks_end_to_end() {
    let file = collect(
        "pic.png".to_string(),
        "image/png".to_string(),
        vec![vec![0x89, 0x50], vec![], vec![0x4e], vec![0x47, 0x0d, 0x0a]],
    );
    assert_eq!(file.data(), &vec![0x89, 0x50, 0x4e, 0x47, 0x0d, 0x0a]);
    assert_eq!(file.len(), 6);
    assert_eq!(file.name(), "pic.png");
    assert_eq!(file.content_type(), "image/png");
}

#[test]
fn collect_of_no_chunks_is_an_empty_file() {
    let file = collect("empty".to_string(), "text/plain".to_string(), vec![]);
    assert_eq!(file.len(), 0);
    assert!(file.data().is_empty());
    assert_eq!(file, File::new("text/plain".to_string(), "empty".to_string(), vec![]));
}

#[test]
fn collected_length_is_the_sum_of_the_chunk_lengths() {
    let chunks: Vec<Vec<u8>> = vec![vec![1; 3], vec![2; 0], vec![3; 1000], vec![4; 17]];
    let expected: usize = chunks.iter().map(|c| c.len()).sum();
    let file = collect("f".to_string(), "t".to_string(), chunks);
    assert_eq!(file.len(), expected);
    assert_eq!(file.len(), 1020);
    assert_eq!(file.data()[0], 1);
    assert_eq!(file.data()[2], 1);
    assert_eq!(file.data()[3], 3);
    assert_eq!(file.data()[1002], 3);
    assert_eq!(file.data()[1003], 4);
    assert_eq!(file.data()[1019], 4);
}
