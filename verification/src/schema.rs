//! Target shapes, and the conversion of a finished document into one.

use vstd::prelude::*;
use crate::document::{distinct_keys, entries_view, holds_key, value_at, Document, DocumentView};
use crate::value::{views_of, Value, ValueView};

verus! {

/// The kinds of value that a document holds.
#[derive(Debug, Clone, Copy, PartialEq, Eq, Structural)]
pub enum Kind {
    Null,
    Boolean,
    Integer,
    Text,
    File,
    Sequence,
}

/// The type that a shape declares for a field.
#[derive(Debug, PartialEq, Eq)]
pub enum FieldType {
    Null,
    Boolean,
    Integer,
    Text,
    File,
    /// A sequence, each of whose items is of the given type.
    Sequence(Box<FieldType>),
}

/// The kind of a value.
pub open spec fn kind_of(value: ValueView) -> Kind {
    match value {
        ValueView::Null => Kind::Null,
        ValueView::Bool(_) => Kind::Boolean,
        ValueView::Integer(_) => Kind::Integer,
        ValueView::Text(_) => Kind::Text,
        ValueView::File(_) => Kind::File,
        ValueView::Sequence(_) => Kind::Sequence,
    }
}

/// The kind of the values of a type.
pub open spec fn type_kind(ty: FieldType) -> Kind {
    match ty {
        FieldType::Null => Kind::Null,
        FieldType::Boolean => Kind::Boolean,
        FieldType::Integer => Kind::Integer,
        FieldType::Text => Kind::Text,
        FieldType::File => Kind::File,
        FieldType::Sequence(_) => Kind::Sequence,
    }
}

/// Where a value is not of a type, the kind that was expected and the kind
/// that was found, at the first place at which they differ: the value
/// itself, or else the first item of a sequence that is not of the item
/// type.
pub open spec fn mismatch(value: ValueView, ty: FieldType) -> Option<(Kind, Kind)>
    decreases ty, 0nat,
{
    if kind_of(value) != type_kind(ty) {
        Some((type_kind(ty), kind_of(value)))
    } else {
        match (ty, value) {
            (FieldType::Sequence(item), ValueView::Sequence(items)) => items_mismatch(items, *item),
            _ => None,
        }
    }
}

/// The mismatch of the first item that is not of the item type.
pub open spec fn items_mismatch(items: Seq<ValueView>, item: FieldType) -> Option<(Kind, Kind)>
    decreases item, items.len() + 1,
{
    if items.len() == 0 {
        None
    } else {
        match mismatch(items[0], item) {
            Some(m) => Some(m),
            None => items_mismatch(items.drop_first(), item),
        }
    }
}

/// The value is of the type.
pub open spec fn conforms(value: ValueView, ty: FieldType) -> bool {
    mismatch(value, ty) is None
}

impl Value {
    /// The kind of the value.
    pub fn kind(&self) -> (kind: Kind)
        ensures
            kind == kind_of(self@),
    {
        match self {
            Value::Null => Kind::Null,
            Value::Bool(_) => Kind::Boolean,
            Value::Integer(_) => Kind::Integer,
            Value::Text(_) => Kind::Text,
            Value::File(_) => Kind::File,
            Value::Sequence(_) => Kind::Sequence,
        }
    }
}

impl FieldType {
    /// The kind of the values of the type.
    pub fn kind(&self) -> (kind: Kind)
        ensures
            kind == type_kind(*self),
    {
        match self {
            FieldType::Null => Kind::Null,
            FieldType::Boolean => Kind::Boolean,
            FieldType::Integer => Kind::Integer,
            FieldType::Text => Kind::Text,
            FieldType::File => Kind::File,
            FieldType::Sequence(_) => Kind::Sequence,
        }
    }
}

/// Checks a value against a type: `None` where it is of the type, else the
/// expected and the found kind at the first mismatch.
pub fn check(value: &Value, ty: &FieldType) -> (found: Option<(Kind, Kind)>)
    ensures
        found == mismatch(value@, *ty),
    decreases *ty,
{
    let expected = ty.kind();
    let actual = value.kind();
    if expected != actual {
        return Some((expected, actual));
    }
    match ty {
        FieldType::Sequence(item) => match value {
            Value::Sequence(items) => {
                let ghost all = views_of(items@);
                let mut i: usize = 0;
                assert(all.skip(0) =~= all);
                while i < items.len()
                    invariant
                        i <= items.len(),
                        all == views_of(items@),
                        *ty == FieldType::Sequence(*item),
                        mismatch(value@, *ty) == items_mismatch(all, **item),
                        items_mismatch(all, **item) == items_mismatch(all.skip(i as int), **item),
                    decreases items.len() - i,
                {
                    let ghost rest = all.skip(i as int);
                    assert(rest[0] == items@[i as int]@);
                    assert(rest.drop_first() =~= all.skip(i + 1));
                    match check(&items[i], item) {
                        Some(m) => {
                            return Some(m);
                        },
                        None => {},
                    }
                    i += 1;
                }
                assert(all.skip(i as int).len() == 0);
                None
            },
            _ => None,
        },
        _ => None,
    }
}

/// A validation error as a mathematical value.
pub enum ValidationErrorView {
    Missing { field: Seq<char> },
    WrongKind { field: Seq<char>, expected: Kind, found: Kind },
    Unexpected { field: Seq<char> },
}

/// Why a document does not match a shape. Each variant names the field.
#[derive(Debug, PartialEq, Eq)]
pub enum ValidationError {
    /// The document has no value for a field that it must have.
    Missing { field: String },
    /// The value of the field, or an item of it, is of another kind than
    /// the shape declares.
    WrongKind { field: String, expected: Kind, found: Kind },
    /// The document has a key that a strict shape does not declare.
    Unexpected { field: String },
}

impl View for ValidationError {
    type V = ValidationErrorView;

    open spec fn view(&self) -> ValidationErrorView {
        match self {
            ValidationError::Missing { field } => ValidationErrorView::Missing { field: field@ },
            ValidationError::WrongKind { field, expected, found } => ValidationErrorView::WrongKind {
                field: field@,
                expected: *expected,
                found: *found,
            },
            ValidationError::Unexpected { field } => ValidationErrorView::Unexpected {
                field: field@,
            },
        }
    }
}

/// The field that a validation error names.
pub open spec fn named_field(error: ValidationErrorView) -> Seq<char> {
    match error {
        ValidationErrorView::Missing { field } => field,
        ValidationErrorView::WrongKind { field, .. } => field,
        ValidationErrorView::Unexpected { field } => field,
    }
}

impl ValidationError {
    /// The field that the error names.
    pub fn field(&self) -> (field: &String)
        ensures
            field@ == named_field(self@),
    {
        match self {
            ValidationError::Missing { field } => field,
            ValidationError::WrongKind { field, .. } => field,
            ValidationError::Unexpected { field } => field,
        }
    }
}

/// A declared field as mathematical values.
pub struct FieldSpecView {
    pub name: Seq<char>,
    pub ty: FieldType,
    pub required: bool,
}

/// One field of a shape.
#[derive(Debug, PartialEq, Eq)]
pub struct FieldSpec {
    /// The key under which the document holds the field.
    pub name: String,
    /// The type of its value.
    pub ty: FieldType,
    /// Whether the document must hold it.
    pub required: bool,
}

impl View for FieldSpec {
    type V = FieldSpecView;

    open spec fn view(&self) -> FieldSpecView {
        FieldSpecView { name: self.name@, ty: self.ty, required: self.required }
    }
}

/// How a shape treats keys that it does not declare and fields that the
/// document lacks.
#[derive(Debug, Clone, Copy, PartialEq, Eq, Structural)]
pub enum Policy {
    /// Keys that the shape does not declare are left out of the target
    /// value; a field that is not required may be absent.
    Permissive,
    /// The document holds every declared field and no other key.
    Strict,
}

/// A shape as mathematical values.
pub struct ShapeView {
    pub fields: Seq<FieldSpecView>,
    pub policy: Policy,
}

/// A target shape: named, typed fields and a policy.
#[derive(Debug, PartialEq, Eq)]
pub struct Shape {
    pub fields: Vec<FieldSpec>,
    pub policy: Policy,
}

/// The views of declared fields, field by field.
pub open spec fn fields_view(fields: Seq<FieldSpec>) -> Seq<FieldSpecView> {
    Seq::new(fields.len(), |i: int| fields[i]@)
}

impl View for Shape {
    type V = ShapeView;

    open spec fn view(&self) -> ShapeView {
        ShapeView { fields: fields_view(self.fields@), policy: self.policy }
    }
}

/// What is wrong with the document as to one declared field, if anything:
/// the field is absent though required, or the shape is strict; or its value
/// is not of the declared type.
pub open spec fn field_failure(
    doc: DocumentView,
    field: FieldSpecView,
    policy: Policy,
) -> Option<ValidationErrorView> {
    match value_at(doc, field.name) {
        None => if field.required || policy == Policy::Strict {
            Some(ValidationErrorView::Missing { field: field.name })
        } else {
            None
        },
        Some(value) => match mismatch(value, field.ty) {
            Some((expected, found)) => Some(
                ValidationErrorView::WrongKind { field: field.name, expected, found },
            ),
            None => None,
        },
    }
}

/// The failure of the first declared field that has one.
pub open spec fn first_failure(
    doc: DocumentView,
    fields: Seq<FieldSpecView>,
    policy: Policy,
) -> Option<ValidationErrorView>
    decreases fields.len(),
{
    if fields.len() == 0 {
        None
    } else {
        match field_failure(doc, fields[0], policy) {
            Some(e) => Some(e),
            None => first_failure(doc, fields.drop_first(), policy),
        }
    }
}

/// The shape declares a field under `key`.
pub open spec fn declares(fields: Seq<FieldSpecView>, key: Seq<char>) -> bool {
    exists|i: int| 0 <= i < fields.len() && (#[trigger] fields[i]).name == key
}

/// The first key of the document that the shape does not declare.
pub open spec fn first_extra(doc: DocumentView, fields: Seq<FieldSpecView>) -> Option<Seq<char>>
    decreases doc.len(),
{
    if doc.len() == 0 {
        None
    } else if !declares(fields, doc[0].0) {
        Some(doc[0].0)
    } else {
        first_extra(doc.drop_first(), fields)
    }
}

/// The entries of the document whose keys the shape declares, in the
/// document's order.
pub open spec fn selected(doc: DocumentView, fields: Seq<FieldSpecView>) -> DocumentView
    decreases doc.len(),
{
    if doc.len() == 0 {
        Seq::empty()
    } else if declares(fields, doc.last().0) {
        selected(doc.drop_last(), fields).push(doc.last())
    } else {
        selected(doc.drop_last(), fields)
    }
}

/// The outcome of converting a document into a shape.
///
/// The declared fields are checked in the order of their declaration, and
/// the first failure is the error. Where none fails and the shape is
/// strict, the first key that the shape does not declare is the error.
/// Otherwise the target value is the document's entries under declared
/// keys.
pub open spec fn converted(doc: DocumentView, shape: ShapeView) -> Result<
    DocumentView,
    ValidationErrorView,
> {
    match first_failure(doc, shape.fields, shape.policy) {
        Some(e) => Err(e),
        None => if shape.policy == Policy::Strict && first_extra(doc, shape.fields) is Some {
            Err(ValidationErrorView::Unexpected { field: first_extra(doc, shape.fields)->0 })
        } else {
            Ok(selected(doc, shape.fields))
        },
    }
}

/// A document of which no declared field fails, and all of whose keys the
/// shape declares, converts into itself, under either policy.
pub proof fn law_matching_document_converts(doc: DocumentView, shape: ShapeView)
    requires
        first_failure(doc, shape.fields, shape.policy) is None,
        forall|i: int| 0 <= i < doc.len() ==> declares(shape.fields, (#[trigger] doc[i]).0),
    ensures
        converted(doc, shape) == Ok::<DocumentView, ValidationErrorView>(doc),
{
    lemma_all_declared(doc, shape.fields);
}

/// Where the shape declares every key, no key is an extra one and every
/// entry is selected.
proof fn lemma_all_declared(doc: DocumentView, fields: Seq<FieldSpecView>)
    requires
        forall|i: int| 0 <= i < doc.len() ==> declares(fields, (#[trigger] doc[i]).0),
    ensures
        first_extra(doc, fields) is None,
        selected(doc, fields) == doc,
    decreases doc.len(),
{
    if doc.len() > 0 {
        assert forall|i: int| 0 <= i < doc.drop_first().len() implies declares(
            fields,
            (#[trigger] doc.drop_first()[i]).0,
        ) by {
            assert(doc.drop_first()[i] == doc[i + 1]);
        }
        assert forall|i: int| 0 <= i < doc.drop_last().len() implies declares(
            fields,
            (#[trigger] doc.drop_last()[i]).0,
        ) by {
            assert(doc.drop_last()[i] == doc[i]);
        }
        lemma_all_declared(doc.drop_first(), fields);
        lemma_all_declared(doc.drop_last(), fields);
        assert(declares(fields, doc[0].0));
        assert(declares(fields, doc[doc.len() - 1].0));
        assert(doc.drop_last().push(doc.last()) =~= doc);
    } else {
        assert(doc =~= Seq::empty());
    }
}

/// Every key of the selected entries is a key of the document.
proof fn lemma_selected_keys(doc: DocumentView, fields: Seq<FieldSpecView>, key: Seq<char>)
    requires
        holds_key(selected(doc, fields), key),
    ensures
        holds_key(doc, key),
    decreases doc.len(),
{
    let chosen = selected(doc, fields);
    let at = choose|i: int| 0 <= i < chosen.len() && (#[trigger] chosen[i]).0 == key;
    if doc.len() > 0 {
        let earlier = selected(doc.drop_last(), fields);
        if declares(fields, doc.last().0) && at == earlier.len() {
            assert(doc[doc.len() - 1].0 == key);
        } else {
            assert(earlier[at].0 == key);
            lemma_selected_keys(doc.drop_last(), fields, key);
            let found = choose|i: int|
                0 <= i < doc.drop_last().len() && (#[trigger] doc.drop_last()[i]).0 == key;
            assert(doc[found].0 == key);
        }
    }
}

/// The failure of the first declared field that has one.
fn first_failing(doc: &Document, shape: &Shape) -> (failure: Option<ValidationError>)
    ensures
        match failure {
            Some(e) => first_failure(doc@, shape@.fields, shape@.policy) == Some(e@),
            None => first_failure(doc@, shape@.fields, shape@.policy) is None,
        },
{
    let ghost fields = shape@.fields;
    let mut i: usize = 0;
    assert(fields.skip(0) =~= fields);
    while i < shape.fields.len()
        invariant
            i <= shape.fields.len(),
            fields == shape@.fields,
            first_failure(doc@, fields, shape@.policy) == first_failure(
                doc@,
                fields.skip(i as int),
                shape@.policy,
            ),
        decreases shape.fields.len() - i,
    {
        let field = &shape.fields[i];
        proof {
            assert(fields.skip(i as int)[0] == field@);
            assert(fields.skip(i as int).drop_first() =~= fields.skip(i + 1));
        }
        match doc.get(field.name.as_str()) {
            None => {
                if field.required || shape.policy == Policy::Strict {
                    return Some(ValidationError::Missing { field: field.name.clone() });
                }
            },
            Some(value) => {
                match check(value, &field.ty) {
                    Some((expected, found)) => {
                        return Some(
                            ValidationError::WrongKind {
                                field: field.name.clone(),
                                expected,
                                found,
                            },
                        );
                    },
                    None => {},
                }
            },
        }
        i += 1;
    }
    None
}

/// Whether the shape declares a field under `key`.
fn is_declared(shape: &Shape, key: &String) -> (declared: bool)
    ensures
        declared == declares(shape@.fields, key@),
{
    let mut i: usize = 0;
    while i < shape.fields.len()
        invariant
            i <= shape.fields.len(),
            forall|j: int| 0 <= j < i ==> (#[trigger] shape@.fields[j]).name != key@,
        decreases shape.fields.len() - i,
    {
        if shape.fields[i].name == *key {
            assert(shape@.fields[i as int].name == key@);
            return true;
        }
        i += 1;
    }
    false
}

/// The first key of the document that the shape does not declare.
fn first_undeclared(doc: &Document, shape: &Shape) -> (extra: Option<String>)
    ensures
        match extra {
            Some(key) => first_extra(doc@, shape@.fields) == Some(key@),
            None => first_extra(doc@, shape@.fields) is None,
        },
{
    let entries = doc.entries();
    let mut i: usize = 0;
    assert(doc@.skip(0) =~= doc@);
    while i < entries.len()
        invariant
            i <= entries.len(),
            entries_view(entries@) == doc@,
            first_extra(doc@, shape@.fields) == first_extra(doc@.skip(i as int), shape@.fields),
        decreases entries.len() - i,
    {
        proof {
            assert(doc@.skip(i as int)[0] == doc@[i as int]);
            assert(doc@.skip(i as int).drop_first() =~= doc@.skip(i + 1));
        }
        if !is_declared(shape, &entries[i].0) {
            return Some(entries[i].0.clone());
        }
        i += 1;
    }
    None
}

/// The entries of the document whose keys the shape declares.
fn select(doc: Document, shape: &Shape) -> (chosen: Document)
    ensures
        chosen@ == selected(doc@, shape@.fields),
{
    let ghost all = doc@;
    let ghost fields = shape@.fields;
    let entries = doc.into_entries();
    let mut chosen = Document::new();
    for entry in it: entries.into_iter()
        invariant
            entries_view(it.seq()) == all,
            distinct_keys(all),
            fields == shape@.fields,
            chosen@ == selected(all.take(it.index() as int), fields),
    {
        let ghost at = it.index() as int;
        let (key, value) = entry;
        proof {
            assert(all[at] == (key@, value@));
            assert(all.take(at + 1).drop_last() =~= all.take(at));
            assert(all.take(at + 1).last() == all[at]);
            if holds_key(chosen@, key@) {
                lemma_selected_keys(all.take(at), fields, key@);
                let earlier = choose|i: int|
                    0 <= i < all.take(at).len() && (#[trigger] all.take(at)[i]).0 == key@;
                assert(all[earlier].0 == all[at].0);
            }
        }
        if is_declared(shape, &key) {
            chosen.set(key, value);
        }
    }
    proof {
        assert(all.take(all.len() as int) =~= all);
    }
    chosen
}

/// Converts a finished document into the target shape, or says why it
/// does not match.
pub fn convert(doc: Document, shape: &Shape) -> (target: Result<Document, ValidationError>)
    ensures
        match target {
            Ok(value) => converted(doc@, shape@) == Ok::<DocumentView, ValidationErrorView>(
                value@,
            ),
            Err(e) => converted(doc@, shape@) == Err::<DocumentView, ValidationErrorView>(e@),
        },
{
    match first_failing(&doc, shape) {
        Some(e) => {
            return Err(e);
        },
        None => {},
    }
    if shape.policy == Policy::Strict {
        match first_undeclared(&doc, shape) {
            Some(field) => {
                return Err(ValidationError::Unexpected { field });
            },
            None => {},
        }
    }
    Ok(select(doc, shape))
}

} // verus!
