//! The fields that write a document down, and the proof that decoding
//! them gives the document back.

use vstd::prelude::*;
use vstd::utf8::{encode_utf8, encode_utf8_decode_utf8, encode_utf8_valid_utf8};
use crate::document::{
    array_key, distinct_keys, holds_key, is_array_name, lemma_index_of, DocumentView,
};
use crate::driver::{
    contribution, decoded, decoded_onto, lemma_decoded_in_parts, parsed, FieldSegmentView,
};
use crate::error::DecodeErrorView;
use crate::field::{lemma_concatenation_of_one, FieldMetaView};
use crate::scalar::{
    decimal, false_text, integer_of, law_decimal_reads_back, lemma_ascii_is_text, true_text,
};
use crate::schema::{converted, ShapeView, ValidationErrorView};
use crate::value::ValueView;

verus! {

/// The name under which the items of the sequence at `key` travel.
pub open spec fn array_name(key: Seq<char>) -> Seq<char> {
    key + seq!['[', ']']
}

/// A scalar field of the given name and body.
pub open spec fn scalar_field(name: Seq<char>, chunks: Seq<Seq<u8>>) -> FieldSegmentView {
    FieldSegmentView {
        meta: FieldMetaView { name: Some(name), filename: None, content_type: Seq::empty() },
        chunks,
        broken: false,
    }
}

/// The field that writes one value down under `name`: a scalar as its
/// text, null as a body without a chunk, a file as an attachment with its
/// file name and content type.
pub open spec fn item_field(name: Seq<char>, item: ValueView) -> FieldSegmentView {
    match item {
        ValueView::Bool(b) => scalar_field(
            name,
            seq![
                if b {
                    true_text()
                } else {
                    false_text()
                },
            ],
        ),
        ValueView::Integer(n) => scalar_field(name, seq![decimal(n)]),
        ValueView::Text(text) => scalar_field(name, seq![encode_utf8(text)]),
        ValueView::File(file) => FieldSegmentView {
            meta: FieldMetaView {
                name: Some(name),
                filename: Some(file.name),
                content_type: file.content_type,
            },
            chunks: seq![file.data],
            broken: false,
        },
        _ => scalar_field(name, Seq::empty()),
    }
}

/// The fields that write one entry down: one field under the key, or, for
/// a sequence, one field for each item under the key with `[]` behind it.
pub open spec fn entry_fields(key: Seq<char>, value: ValueView) -> Seq<FieldSegmentView> {
    match value {
        ValueView::Sequence(items) => Seq::new(
            items.len(),
            |i: int| item_field(array_name(key), items[i]),
        ),
        _ => seq![item_field(key, value)],
    }
}

/// The fields that write a document down, entry by entry in its order.
pub open spec fn encoded(doc: DocumentView) -> Seq<FieldSegmentView>
    decreases doc.len(),
{
    if doc.len() == 0 {
        Seq::empty()
    } else {
        encoded(doc.drop_last()) + entry_fields(doc.last().0, doc.last().1)
    }
}

/// The value can travel as one field: it is no sequence; an integer is
/// one of 64 bits; a text is not read as an integer or as a boolean.
pub open spec fn travels(item: ValueView) -> bool {
    match item {
        ValueView::Integer(n) => i64::MIN <= n <= i64::MAX,
        ValueView::Text(text) => {
            &&& integer_of(encode_utf8(text)) is None
            &&& encode_utf8(text) != true_text()
            &&& encode_utf8(text) != false_text()
        },
        ValueView::Sequence(_) => false,
        _ => true,
    }
}

/// The entry can travel: a sequence has an item and each item travels;
/// any other value travels and its key does not end in `[]`.
pub open spec fn entry_travels(key: Seq<char>, value: ValueView) -> bool {
    match value {
        ValueView::Sequence(items) => items.len() > 0 && forall|i: int|
            0 <= i < items.len() ==> travels(#[trigger] items[i]),
        _ => travels(value) && !is_array_name(key),
    }
}

/// The document can travel: its keys are distinct and each entry travels.
pub open spec fn document_travels(doc: DocumentView) -> bool {
    &&& distinct_keys(doc)
    &&& forall|i: int| 0 <= i < doc.len() ==> entry_travels((#[trigger] doc[i]).0, doc[i].1)
}

/// A value that travels is what its field contributes.
proof fn lemma_item_reads_back(name: Seq<char>, item: ValueView)
    requires
        travels(item),
    ensures
        contribution(item_field(name, item)) == Ok::<(Seq<char>, ValueView), DecodeErrorView>(
            (name, item),
        ),
{
    broadcast use {encode_utf8_valid_utf8, encode_utf8_decode_utf8};

    match item {
        ValueView::Bool(b) => {
            lemma_ascii_is_text(true_text());
            lemma_ascii_is_text(false_text());
            assert(!crate::scalar::is_digit(true_text()[0]));
            assert(!crate::scalar::is_digit(false_text()[0]));
            assert(true_text().len() != false_text().len());
        },
        ValueView::Integer(n) => {
            law_decimal_reads_back(n);
        },
        ValueView::File(file) => {
            lemma_concatenation_of_one(file.data);
        },
        _ => {},
    }
}

/// The fields of an entry that travels put the entry behind a document
/// that does not hold its key.
proof fn lemma_entry_reads_back(doc: DocumentView, key: Seq<char>, value: ValueView)
    requires
        distinct_keys(doc),
        !holds_key(doc, key),
        entry_travels(key, value),
    ensures
        decoded_onto(doc, entry_fields(key, value)) == Ok::<DocumentView, DecodeErrorView>(
            doc.push((key, value)),
        ),
{
    match value {
        ValueView::Sequence(items) => {
            let fields = entry_fields(key, value);
            lemma_items_read_back(doc, key, items, items.len() as int);
            assert(items.take(items.len() as int) =~= items);
            assert(fields.len() == items.len());
            assert(fields.take(items.len() as int) =~= fields);
        },
        _ => {
            let fields = entry_fields(key, value);
            lemma_item_reads_back(key, value);
            assert(fields.drop_last() =~= Seq::<FieldSegmentView>::empty());
            assert(fields.last() == item_field(key, value));
            assert(decoded_onto(doc, fields.drop_last()) == Ok::<DocumentView, DecodeErrorView>(doc));
        },
    }
}

/// The first `count` fields of a sequence that travels put its first
/// `count` items, as a sequence, behind a document that does not hold the
/// key.
proof fn lemma_items_read_back(
    doc: DocumentView,
    key: Seq<char>,
    items: Seq<ValueView>,
    count: int,
)
    requires
        distinct_keys(doc),
        !holds_key(doc, key),
        0 < count <= items.len(),
        forall|i: int| 0 <= i < items.len() ==> travels(#[trigger] items[i]),
    ensures
        decoded_onto(doc, entry_fields(key, ValueView::Sequence(items)).take(count)) == Ok::<
            DocumentView,
            DecodeErrorView,
        >(doc.push((key, ValueView::Sequence(items.take(count))))),
    decreases count,
{
    let name = array_name(key);
    let fields = entry_fields(key, ValueView::Sequence(items)).take(count);
    let item = items[count - 1];
    assert(fields.last() == item_field(name, item));
    assert(fields.drop_last() =~= entry_fields(key, ValueView::Sequence(items)).take(count - 1));
    lemma_item_reads_back(name, item);
    assert(is_array_name(name));
    assert(array_key(name) =~= key);
    if count == 1 {
        assert(fields.drop_last() =~= Seq::<FieldSegmentView>::empty());
        assert(seq![item] =~= items.take(1));
    } else {
        lemma_items_read_back(doc, key, items, count - 1);
        let earlier = doc.push((key, ValueView::Sequence(items.take(count - 1))));
        assert(earlier[doc.len() as int].0 == key);
        assert forall|i: int, j: int|
            0 <= i < earlier.len() && 0 <= j < earlier.len() && i != j implies (
        #[trigger] earlier[i]).0 != (#[trigger] earlier[j]).0 by {
            if i < doc.len() {
                assert(earlier[i] == doc[i]);
            }
            if j < doc.len() {
                assert(earlier[j] == doc[j]);
            }
        }
        lemma_index_of(earlier, doc.len() as int);
        assert(items.take(count - 1).push(item) =~= items.take(count));
        assert(earlier.update(doc.len() as int, (key, ValueView::Sequence(items.take(count))))
            =~= doc.push((key, ValueView::Sequence(items.take(count)))));
    }
}

/// Round trip: a document that can travel, written down as fields and
/// decoded, is the same document again.
pub proof fn law_round_trip(doc: DocumentView)
    requires
        document_travels(doc),
    ensures
        decoded(encoded(doc)) == Ok::<DocumentView, DecodeErrorView>(doc),
    decreases doc.len(),
{
    if doc.len() > 0 {
        let earlier = doc.drop_last();
        let (key, value) = doc.last();
        assert forall|i: int| 0 <= i < earlier.len() implies entry_travels(
            (#[trigger] earlier[i]).0,
            earlier[i].1,
        ) by {
            assert(earlier[i] == doc[i]);
        }
        assert(distinct_keys(earlier)) by {
            assert forall|i: int, j: int|
                0 <= i < earlier.len() && 0 <= j < earlier.len() && i != j implies (
            #[trigger] earlier[i]).0 != (#[trigger] earlier[j]).0 by {
                assert(earlier[i] == doc[i]);
                assert(earlier[j] == doc[j]);
            }
        }
        law_round_trip(earlier);
        if holds_key(earlier, key) {
            let i = choose|i: int| 0 <= i < earlier.len() && (#[trigger] earlier[i]).0 == key;
            assert(doc[i].0 == doc[doc.len() - 1].0);
        }
        assert(entry_travels(doc[doc.len() - 1].0, doc[doc.len() - 1].1));
        lemma_entry_reads_back(earlier, key, value);
        lemma_decoded_in_parts(Seq::empty(), encoded(earlier), entry_fields(key, value));
        assert(earlier.push((key, value)) =~= doc);
    } else {
        assert(doc =~= Seq::empty());
    }
}

/// Round trip through a shape: where a value of the shape can travel,
/// writing it down as fields and decoding them into the shape gives the
/// value back.
pub proof fn law_round_trip_through_shape(target: DocumentView, shape: ShapeView)
    requires
        document_travels(target),
        converted(target, shape) == Ok::<DocumentView, ValidationErrorView>(target),
    ensures
        parsed(encoded(target), shape) == Ok::<DocumentView, DecodeErrorView>(target),
{
    law_round_trip(target);
}

} // verus!
