use multipart_decode::{Document, File, Multipart, Value};

#[test]
fn file_accessors() {
    let file = File::new("image/png".to_string(), "pic.png".to_string(), vec![0x89, 0x50, 0x4e]);
    assert_eq!(file.content_type(), "image/png");
    assert_eq!(file.name(), "pic.png");
    assert_eq!(file.len(), 3);
    assert_eq!(file.data(), &vec![0x89, 0x50, 0x4e]);
}

#[test]
fn file_with_empty_parts() {
    let file = File::new(String::new(), String::new(), Vec::new());
    assert_eq!(file.content_type(), "");
    assert_eq!(file.name(), "");
    assert_eq!(file.len(), 0);
    assert!(file.data().is_empty());
}

#[test]
fn multipart_wraps_and_unwraps() {
    let wrapped = Multipart::new(41u32);
    assert_eq!(*wrapped, 41);
    assert_eq!(wrapped.into_inner(), 41);
}

#[test]
fn multipart_derefs_to_the_wrapped_value() {
    let wrapped = Multipart::new(String::from("abc"));
    assert_eq!(wrapped.len(), 3);
    assert_eq!(wrapped.as_str(), "abc");
}

#[test]
fn multipart_derefs_mutably() {
    let mut wrapped = Multipart::new(vec![1u8, 2]);
    wrapped.push(3);
    *wrapped = {
        let mut v = wrapped.clone();
        v.push(4);
        v
    };
    assert_eq!(*wrapped, vec![1, 2, 3, 4]);
}

#[test]
fn multipart_around_a_document() {
    let mut doc = Document::new();
    doc.merge("age".to_string(), Value::Integer(30));
    let mut wrapped = Multipart::new(doc);
    assert_eq!(wrapped.get("age"), Some(&Value::Integer(30)));
    wrapped.merge("age".to_string(), Value::Integer(31));
    assert_eq!(wrapped.into_inner().get("age"), Some(&Value::Integer(31)));
}
