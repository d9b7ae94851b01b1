use multipart_decode::document::array_key_of;
use multipart_decode::{Document, File, Value};

fn text(s: &str) -> Value {
    Value::Text(s.to_string())
}

fn name(s: &str) -> String {
    s.to_string()
}

#[test]
fn new_document_is_empty() {
    let doc = Document::new();
    assert_eq!(doc.len(), 0);
    assert_eq!(doc.get("age"), None);
    assert!(doc.entries().is_empty());
}

#[test]
fn plain_name_sets_value() {
    let mut doc = Document::new();
    doc.merge(name("age"), Value::Integer(30));
    assert_eq!(doc.len(), 1);
    assert_eq!(doc.get("age"), Some(&Value::Integer(30)));
    assert_eq!(doc.get("ag"), None);
    assert_eq!(doc.get("age[]"), None);
}

#[test]
fn repeated_plain_name_last_write_wins() {
    let mut doc = Document::new();
    doc.merge(name("color"), text("red"));
    doc.merge(name("size"), Value::Integer(3));
    doc.merge(name("color"), text("blue"));
    assert_eq!(doc.len(), 2);
    assert_eq!(doc.get("color"), Some(&text("blue")));
    assert_eq!(doc.get("size"), Some(&Value::Integer(3)));
    let entries = doc.entries();
    assert_eq!(entries[0], (name("color"), text("blue")));
    assert_eq!(entries[1], (name("size"), Value::Integer(3)));
}

#[test]
fn overwriting_leaves_no_trace_of_the_first_write() {
    let mut twice = Document::new();
    twice.merge(name("k"), Value::Integer(1));
    twice.merge(name("k"), Value::Integer(2));
    let mut once = Document::new();
    once.merge(name("k"), Value::Integer(2));
    assert_eq!(twice, once);
}

#[test]
fn array_name_appends_in_arrival_order() {
    let mut doc = Document::new();
    doc.merge(name("tag[]"), text("a"));
    doc.merge(name("tag[]"), text("b"));
    doc.merge(name("tag[]"), text("c"));
    assert_eq!(doc.len(), 1);
    assert_eq!(
        doc.get("tag"),
        Some(&Value::Sequence(vec![text("a"), text("b"), text("c")]))
    );
    assert_eq!(doc.get("tag[]"), None);
}

#[test]
fn array_name_creates_the_sequence_on_first_use() {
    let mut doc = Document::new();
    doc.merge(name("n[]"), Value::Integer(1));
    assert_eq!(doc.get("n"), Some(&Value::Sequence(vec![Value::Integer(1)])));
}

#[test]
fn array_fields_interleaved_with_others_still_append() {
    let mut doc = Document::new();
    doc.merge(name("tag[]"), text("a"));
    doc.merge(name("age"), Value::Integer(30));
    doc.merge(name("tag[]"), text("b"));
    doc.merge(name("other[]"), Value::Bool(true));
    doc.merge(name("tag[]"), Value::Null);
    assert_eq!(doc.len(), 3);
    assert_eq!(
        doc.get("tag"),
        Some(&Value::Sequence(vec![text("a"), text("b"), Value::Null]))
    );
    assert_eq!(doc.get("age"), Some(&Value::Integer(30)));
    assert_eq!(doc.get("other"), Some(&Value::Sequence(vec![Value::Bool(true)])));
    let keys: Vec<&str> = doc.entries().iter().map(|e| e.0.as_str()).collect();
    assert_eq!(keys, vec!["tag", "age", "other"]);
}

#[test]
fn sequences_keep_values_of_mixed_kinds() {
    let mut doc = Document::new();
    let file = File::new(name("image/png"), name("a.png"), vec![1, 2]);
    doc.merge(name("x[]"), Value::Integer(1));
    doc.merge(name("x[]"), Value::File(file.clone()));
    doc.merge(name("x[]"), Value::Sequence(vec![Value::Null]));
    assert_eq!(
        doc.get("x"),
        Some(&Value::Sequence(vec![
            Value::Integer(1),
            Value::File(file),
            Value::Sequence(vec![Value::Null]),
        ]))
    );
}

#[test]
fn plain_name_after_array_name_overwrites_the_sequence() {
    let mut doc = Document::new();
    doc.merge(name("tag[]"), text("a"));
    doc.merge(name("tag"), text("single"));
    assert_eq!(doc.get("tag"), Some(&text("single")));
}

#[test]
fn array_name_over_a_single_value_starts_a_sequence() {
    let mut doc = Document::new();
    doc.merge(name("tag"), text("single"));
    doc.merge(name("tag[]"), text("a"));
    assert_eq!(doc.get("tag"), Some(&Value::Sequence(vec![text("a")])));
    doc.merge(name("tag[]"), text("b"));
    assert_eq!(doc.get("tag"), Some(&Value::Sequence(vec![text("a"), text("b")])));
    assert_eq!(doc.len(), 1);
}

#[test]
fn short_names_are_plain_names() {
    let mut doc = Document::new();
    doc.merge(name(""), Value::Integer(0));
    doc.merge(name("a"), Value::Integer(1));
    doc.merge(name("]"), Value::Integer(2));
    doc.merge(name("["), Value::Integer(3));
    assert_eq!(doc.len(), 4);
    assert_eq!(doc.get(""), Some(&Value::Integer(0)));
    assert_eq!(doc.get("a"), Some(&Value::Integer(1)));
    assert_eq!(doc.get("]"), Some(&Value::Integer(2)));
    assert_eq!(doc.get("["), Some(&Value::Integer(3)));
}

#[test]
fn bare_brackets_name_the_empty_key() {
    let mut doc = Document::new();
    doc.merge(name("[]"), Value::Integer(1));
    assert_eq!(doc.get(""), Some(&Value::Sequence(vec![Value::Integer(1)])));
}

#[test]
fn only_the_last_two_characters_count() {
    let mut doc = Document::new();
    doc.merge(name("a[]b"), Value::Integer(1));
    doc.merge(name("a[ ]"), Value::Integer(2));
    doc.merge(name("a]["), Value::Integer(3));
    doc.merge(name("a[][]"), Value::Integer(4));
    assert_eq!(doc.get("a[]b"), Some(&Value::Integer(1)));
    assert_eq!(doc.get("a[ ]"), Some(&Value::Integer(2)));
    assert_eq!(doc.get("a]["), Some(&Value::Integer(3)));
    assert_eq!(doc.get("a[]"), Some(&Value::Sequence(vec![Value::Integer(4)])));
    assert_eq!(doc.get("a"), None);
}

#[test]
fn names_beyond_ascii() {
    let mut doc = Document::new();
    doc.merge(name("\u{e9}"), Value::Integer(1));
    doc.merge(name("a\u{20ac}"), Value::Integer(2));
    doc.merge(name("\u{540d}\u{524d}[]"), Value::Integer(3));
    assert_eq!(doc.get("\u{e9}"), Some(&Value::Integer(1)));
    assert_eq!(doc.get("a\u{20ac}"), Some(&Value::Integer(2)));
    assert_eq!(
        doc.get("\u{540d}\u{524d}"),
        Some(&Value::Sequence(vec![Value::Integer(3)]))
    );
}

#[test]
fn array_key_of_strips_the_suffix() {
    assert_eq!(array_key_of("tag[]"), Some(name("tag")));
    assert_eq!(array_key_of("[]"), Some(name("")));
    assert_eq!(array_key_of("a[][]"), Some(name("a[]")));
    assert_eq!(array_key_of("tag"), None);
    assert_eq!(array_key_of("tag["), None);
    assert_eq!(array_key_of("]"), None);
    assert_eq!(array_key_of(""), None);
}

#[test]
fn set_overwrites_in_place_and_adds_at_the_end() {
    let mut doc = Document::new();
    doc.set(name("a"), Value::Integer(1));
    doc.set(name("b[]"), Value::Integer(2));
    doc.set(name("a"), Value::Integer(3));
    assert_eq!(doc.get("a"), Some(&Value::Integer(3)));
    assert_eq!(doc.get("b[]"), Some(&Value::Integer(2)));
    assert_eq!(doc.get("b"), None);
    let entries = doc.into_entries();
    assert_eq!(
        entries,
        vec![(name("a"), Value::Integer(3)), (name("b[]"), Value::Integer(2))]
    );
}
