//! The decode driver: one field after another into one document.
//!
//! The driver never touches the transport. [`Decoder`] says what to pull
//! next and takes what came; whoever owns the transport pulls. [`decode`]
//! and [`parse`] run the same machine over fields that are already in
//! memory.

use vstd::prelude::*;
use vstd::pervasive::unreached;
use crate::document::{
    distinct_keys, law_merge_keeps_keys_distinct, merged, Document, DocumentView,
};
use crate::error::{DecodeError, DecodeErrorView};
use crate::extract::Multipart;
use crate::field::{
    chunks_view, classified, classify, collected, concatenation, FieldClass, FieldClassView,
    FieldMeta, FieldMetaView,
};
use crate::file::{File, FileView};
use crate::scalar::{coerce, coerced};
use crate::schema::{convert, converted, Shape, ShapeView};
use crate::value::{Value, ValueView};

verus! {

/// What the transport can answer, as mathematical values.
pub enum EventView {
    Field(FieldMetaView),
    NoMoreFields,
    Chunk(Seq<u8>),
    NoMoreChunks,
    Failure,
}

/// What the transport answered to a request.
#[derive(Debug, PartialEq, Eq)]
pub enum Event {
    /// The next field, with its metadata.
    Field(FieldMeta),
    /// There is no further field.
    NoMoreFields,
    /// The next chunk of the current field's body.
    Chunk(Vec<u8>),
    /// The current field's body has no further chunk.
    NoMoreChunks,
    /// The transport failed.
    Failure,
}

impl View for Event {
    type V = EventView;

    open spec fn view(&self) -> EventView {
        match self {
            Event::Field(meta) => EventView::Field(meta@),
            Event::NoMoreFields => EventView::NoMoreFields,
            Event::Chunk(body) => EventView::Chunk(body@),
            Event::NoMoreChunks => EventView::NoMoreChunks,
            Event::Failure => EventView::Failure,
        }
    }
}

/// What the driver asks of the transport.
#[derive(Debug, Clone, Copy, PartialEq, Eq, Structural)]
pub enum Request {
    /// The next field.
    Field,
    /// The next chunk of the current field's body.
    Chunk,
}

/// What the driver waits for.
pub enum PendingView {
    /// The next field.
    Field,
    /// The first chunk of a scalar field.
    Scalar { name: Seq<char> },
    /// A further chunk of an attachment, of which `data` has arrived.
    Attachment { name: Seq<char>, filename: Seq<char>, content_type: Seq<char>, data: Seq<u8> },
}

/// The state of a decode as mathematical values: the document so far, and
/// what the driver waits for.
pub struct DecoderView {
    pub document: DocumentView,
    pub pending: PendingView,
}

/// The outcome of one step, as mathematical values.
pub enum StepView {
    Continue(DecoderView),
    Done(DocumentView),
    Failed(DecodeErrorView),
}

/// The request that goes with what the driver waits for.
pub open spec fn requested(pending: PendingView) -> Request {
    match pending {
        PendingView::Field => Request::Field,
        _ => Request::Chunk,
    }
}

/// The step that the driver takes from `state` on `event`.
///
/// Waiting for a field: a field is classified, and a field without a name
/// ends the decode; the end of the fields finishes the document. Waiting
/// for the first chunk of a scalar field: the chunk is coerced and merged,
/// and no further chunk of that field is asked for; a body without a chunk
/// merges null. Waiting for a chunk of an attachment: a chunk goes behind
/// what has arrived; the end of the body merges the file. A failure of the
/// transport ends the decode, and so does an answer to a request that was
/// not made.
pub open spec fn stepped(state: DecoderView, event: EventView) -> StepView {
    match state.pending {
        PendingView::Field => match event {
            EventView::Field(meta) => match classified(meta) {
                Err(e) => StepView::Failed(e),
                Ok(FieldClassView::Scalar { name }) => StepView::Continue(
                    DecoderView { document: state.document, pending: PendingView::Scalar { name } },
                ),
                Ok(FieldClassView::Attachment { name, filename, content_type }) => StepView::Continue(
                    DecoderView {
                        document: state.document,
                        pending: PendingView::Attachment {
                            name,
                            filename,
                            content_type,
                            data: Seq::empty(),
                        },
                    },
                ),
            },
            EventView::NoMoreFields => StepView::Done(state.document),
            _ => StepView::Failed(DecodeErrorView::Transport),
        },
        PendingView::Scalar { name } => match event {
            EventView::Chunk(body) => StepView::Continue(
                DecoderView {
                    document: merged(state.document, name, coerced(body)),
                    pending: PendingView::Field,
                },
            ),
            EventView::NoMoreChunks => StepView::Continue(
                DecoderView {
                    document: merged(state.document, name, ValueView::Null),
                    pending: PendingView::Field,
                },
            ),
            _ => StepView::Failed(DecodeErrorView::Transport),
        },
        PendingView::Attachment { name, filename, content_type, data } => match event {
            EventView::Chunk(body) => StepView::Continue(
                DecoderView {
                    document: state.document,
                    pending: PendingView::Attachment {
                        name,
                        filename,
                        content_type,
                        data: data + body,
                    },
                },
            ),
            EventView::NoMoreChunks => StepView::Continue(
                DecoderView {
                    document: merged(
                        state.document,
                        name,
                        ValueView::File(FileView { content_type, name: filename, data }),
                    ),
                    pending: PendingView::Field,
                },
            ),
            _ => StepView::Failed(DecodeErrorView::Transport),
        },
    }
}

#[derive(Debug)]
enum Pending {
    Field,
    Scalar { name: String },
    Attachment { name: String, filename: String, content_type: String, data: Vec<u8> },
}

impl View for Pending {
    type V = PendingView;

    closed spec fn view(&self) -> PendingView {
        match self {
            Pending::Field => PendingView::Field,
            Pending::Scalar { name } => PendingView::Scalar { name: name@ },
            Pending::Attachment { name, filename, content_type, data } => PendingView::Attachment {
                name: name@,
                filename: filename@,
                content_type: content_type@,
                data: data@,
            },
        }
    }
}

/// A decode in progress.
#[derive(Debug)]
pub struct Decoder {
    document: Document,
    pending: Pending,
}

impl View for Decoder {
    type V = DecoderView;

    closed spec fn view(&self) -> DecoderView {
        DecoderView { document: self.document@, pending: self.pending@ }
    }
}

/// The outcome of one step of a decode.
#[derive(Debug)]
pub enum Step {
    /// The decode goes on.
    Continue(Decoder),
    /// All fields are in: the finished document.
    Done(Document),
    /// The decode failed. No document is produced.
    Failed(DecodeError),
}

impl View for Step {
    type V = StepView;

    open spec fn view(&self) -> StepView {
        match self {
            Step::Continue(decoder) => StepView::Continue(decoder@),
            Step::Done(document) => StepView::Done(document@),
            Step::Failed(error) => StepView::Failed(error@),
        }
    }
}

impl Decoder {
    /// A decode at its start: an empty document, waiting for the first
    /// field.
    pub fn new() -> (decoder: Decoder)
        ensures
            decoder@ == (DecoderView { document: Seq::empty(), pending: PendingView::Field }),
    {
        Decoder { document: Document::new(), pending: Pending::Field }
    }

    /// What to pull from the transport next.
    pub fn request(&self) -> (request: Request)
        ensures
            request == requested(self@.pending),
    {
        match &self.pending {
            Pending::Field => Request::Field,
            _ => Request::Chunk,
        }
    }

    /// Takes what the transport answered and moves on.
    pub fn step(self, event: Event) -> (step: Step)
        ensures
            step@ == stepped(self@, event@),
    {
        let Decoder { document, pending } = self;
        let mut document = document;
        match pending {
            Pending::Field => match event {
                Event::Field(meta) => match classify(meta) {
                    Err(e) => Step::Failed(e),
                    Ok(FieldClass::Scalar { name }) => Step::Continue(
                        Decoder { document, pending: Pending::Scalar { name } },
                    ),
                    Ok(FieldClass::Attachment { name, filename, content_type }) => Step::Continue(
                        Decoder {
                            document,
                            pending: Pending::Attachment {
                                name,
                                filename,
                                content_type,
                                data: Vec::new(),
                            },
                        },
                    ),
                },
                Event::NoMoreFields => Step::Done(document),
                _ => Step::Failed(DecodeError::Transport),
            },
            Pending::Scalar { name } => match event {
                Event::Chunk(body) => {
                    document.merge(name, coerce(body.as_slice()));
                    Step::Continue(Decoder { document, pending: Pending::Field })
                },
                Event::NoMoreChunks => {
                    document.merge(name, Value::Null);
                    Step::Continue(Decoder { document, pending: Pending::Field })
                },
                _ => Step::Failed(DecodeError::Transport),
            },
            Pending::Attachment { name, filename, content_type, data } => match event {
                Event::Chunk(body) => {
                    let mut data = data;
                    let mut body = body;
                    data.append(&mut body);
                    Step::Continue(
                        Decoder {
                            document,
                            pending: Pending::Attachment { name, filename, content_type, data },
                        },
                    )
                },
                Event::NoMoreChunks => {
                    document.merge(name, Value::File(File::new(content_type, filename, data)));
                    Step::Continue(Decoder { document, pending: Pending::Field })
                },
                _ => Step::Failed(DecodeError::Transport),
            },
        }
    }
}

/// A whole field as mathematical values.
pub struct FieldSegmentView {
    pub meta: FieldMetaView,
    pub chunks: Seq<Seq<u8>>,
    pub broken: bool,
}

/// A field that is already in memory: its metadata and what its body
/// yielded.
#[derive(Debug, PartialEq, Eq)]
pub struct FieldSegment {
    pub meta: FieldMeta,
    /// The chunks of the body, in the order in which they arrived.
    pub chunks: Vec<Vec<u8>>,
    /// Whether the transport failed behind the last of these chunks.
    pub broken: bool,
}

impl View for FieldSegment {
    type V = FieldSegmentView;

    open spec fn view(&self) -> FieldSegmentView {
        FieldSegmentView {
            meta: self.meta@,
            chunks: chunks_view(self.chunks@),
            broken: self.broken,
        }
    }
}

/// The views of fields, field by field.
pub open spec fn segments_view(fields: Seq<FieldSegment>) -> Seq<FieldSegmentView> {
    Seq::new(fields.len(), |i: int| fields[i]@)
}

/// What one field contributes to the document: the name to merge under and
/// the value, or the error that ends the decode.
///
/// A field without a name is malformed. A field with a file name becomes a
/// file of all its chunks, whatever they hold, and fails with the
/// transport. A field without one is read up to its first chunk only: that
/// chunk is coerced, and a body that ends before any chunk gives null.
pub open spec fn contribution(field: FieldSegmentView) -> Result<
    (Seq<char>, ValueView),
    DecodeErrorView,
> {
    match classified(field.meta) {
        Err(e) => Err(e),
        Ok(FieldClassView::Attachment { name, filename, content_type }) => if field.broken {
            Err(DecodeErrorView::Transport)
        } else {
            Ok((name, ValueView::File(collected(filename, content_type, field.chunks))))
        },
        Ok(FieldClassView::Scalar { name }) => if field.chunks.len() > 0 {
            Ok((name, coerced(field.chunks[0])))
        } else if field.broken {
            Err(DecodeErrorView::Transport)
        } else {
            Ok((name, ValueView::Null))
        },
    }
}

/// The document that a sequence of fields makes of `start`: each field's
/// contribution merged into it in arrival order. The first field that
/// fails ends the decode with its error.
pub open spec fn decoded_onto(start: DocumentView, fields: Seq<FieldSegmentView>) -> Result<
    DocumentView,
    DecodeErrorView,
>
    decreases fields.len(),
{
    if fields.len() == 0 {
        Ok(start)
    } else {
        match decoded_onto(start, fields.drop_last()) {
            Err(e) => Err(e),
            Ok(document) => match contribution(fields.last()) {
                Err(e) => Err(e),
                Ok((name, value)) => Ok(merged(document, name, value)),
            },
        }
    }
}

/// The document that a sequence of fields decodes to: what the fields make
/// of the empty document.
pub open spec fn decoded(fields: Seq<FieldSegmentView>) -> Result<DocumentView, DecodeErrorView> {
    decoded_onto(Seq::empty(), fields)
}

/// The outcome of a whole decode: the fields decoded into a document, and
/// the document converted into the shape.
pub open spec fn parsed(fields: Seq<FieldSegmentView>, shape: ShapeView) -> Result<
    DocumentView,
    DecodeErrorView,
> {
    match decoded(fields) {
        Err(e) => Err(e),
        Ok(document) => match converted(document, shape) {
            Err(e) => Err(DecodeErrorView::Validation(e)),
            Ok(target) => Ok(target),
        },
    }
}

/// Runs a decode over one field: the metadata, then the chunks for as long
/// as the decoder asks for one, then the end of the body or its failure.
fn feed(decoder: Decoder, field: FieldSegment) -> (fed: Result<Decoder, DecodeError>)
    requires
        decoder@.pending is Field,
    ensures
        match fed {
            Ok(next) => next@.pending is Field && match contribution(field@) {
                Ok((name, value)) => next@.document == merged(decoder@.document, name, value),
                Err(_) => false,
            },
            Err(e) => contribution(field@) == Err::<(Seq<char>, ValueView), DecodeErrorView>(e@),
        },
{
    let ghost start = decoder@.document;
    let ghost view = field@;
    let FieldSegment { meta, chunks, broken } = field;
    let mut decoder = match decoder.step(Event::Field(meta)) {
        Step::Continue(next) => next,
        Step::Failed(e) => {
            return Err(e);
        },
        Step::Done(_) => unreached(),
    };
    let ghost class = classified(view.meta)->Ok_0;
    for chunk in it: chunks.into_iter()
        invariant
            chunks_view(it.seq()) == view.chunks,
            classified(view.meta) == Ok::<FieldClassView, DecodeErrorView>(class),
            match class {
                FieldClassView::Scalar { name } => if it.index() == 0 {
                    decoder@ == (DecoderView {
                        document: start,
                        pending: PendingView::Scalar { name },
                    })
                } else {
                    decoder@ == (DecoderView {
                        document: merged(start, name, coerced(view.chunks[0])),
                        pending: PendingView::Field,
                    })
                },
                FieldClassView::Attachment { name, filename, content_type } => decoder@ == (
                DecoderView {
                    document: start,
                    pending: PendingView::Attachment {
                        name,
                        filename,
                        content_type,
                        data: concatenation(view.chunks.take(it.index() as int)),
                    },
                }),
            },
    {
        proof {
            let at = it.index() as int;
            assert(view.chunks[at] == chunk@);
            assert(view.chunks.take(at + 1).drop_last() =~= view.chunks.take(at));
            assert(view.chunks.take(at + 1).last() == chunk@);
        }
        match decoder.request() {
            Request::Chunk => {
                decoder = match decoder.step(Event::Chunk(chunk)) {
                    Step::Continue(next) => next,
                    _ => unreached(),
                };
            },
            Request::Field => {},
        }
    }
    proof {
        assert(view.chunks.take(view.chunks.len() as int) =~= view.chunks);
    }
    match decoder.request() {
        Request::Field => Ok(decoder),
        Request::Chunk => {
            let end = if broken {
                Event::Failure
            } else {
                Event::NoMoreChunks
            };
            match decoder.step(end) {
                Step::Continue(next) => Ok(next),
                Step::Failed(e) => Err(e),
                Step::Done(_) => unreached(),
            }
        },
    }
}

/// Decodes fields that are already in memory into one document.
pub fn decode(fields: Vec<FieldSegment>) -> (outcome: Result<Document, DecodeError>)
    ensures
        match outcome {
            Ok(document) => decoded(segments_view(fields@)) == Ok::<DocumentView, DecodeErrorView>(
                document@,
            ),
            Err(e) => decoded(segments_view(fields@)) == Err::<DocumentView, DecodeErrorView>(e@),
        },
{
    let ghost all = segments_view(fields@);
    let mut decoder = Decoder::new();
    for field in it: fields.into_iter()
        invariant
            segments_view(it.seq()) == all,
            decoder@.pending is Field,
            decoded(all.take(it.index() as int)) == Ok::<DocumentView, DecodeErrorView>(
                decoder@.document,
            ),
    {
        proof {
            let at = it.index() as int;
            assert(all.take(at + 1).drop_last() =~= all.take(at));
            assert(all.take(at + 1).last() == field@);
            lemma_decoded_fails_on(Seq::empty(), all, at + 1);
        }
        decoder = match feed(decoder, field) {
            Ok(next) => next,
            Err(e) => {
                return Err(e);
            },
        };
    }
    proof {
        assert(all.take(all.len() as int) =~= all);
    }
    match decoder.step(Event::NoMoreFields) {
        Step::Done(document) => Ok(document),
        _ => unreached(),
    }
}

/// Where the decode of the first fields fails, the decode of all of them
/// fails in the same way.
pub proof fn lemma_decoded_fails_on(start: DocumentView, fields: Seq<FieldSegmentView>, k: int)
    requires
        0 <= k <= fields.len(),
    ensures
        decoded_onto(start, fields.take(k)) is Err ==> decoded_onto(start, fields) == decoded_onto(
            start,
            fields.take(k),
        ),
    decreases fields.len(),
{
    if k == fields.len() {
        assert(fields.take(k) =~= fields);
    } else {
        lemma_decoded_fails_on(start, fields.drop_last(), k);
        assert(fields.drop_last().take(k) =~= fields.take(k));
    }
}

/// Whatever the fields are, the document that they decode to holds no key
/// twice.
pub proof fn law_decoded_keys_distinct(fields: Seq<FieldSegmentView>)
    ensures
        decoded(fields) matches Ok(document) ==> distinct_keys(document),
{
    lemma_decoded_onto_distinct(Seq::empty(), fields);
}

/// Decoding onto a document of distinct keys gives one of distinct keys.
proof fn lemma_decoded_onto_distinct(start: DocumentView, fields: Seq<FieldSegmentView>)
    requires
        distinct_keys(start),
    ensures
        decoded_onto(start, fields) matches Ok(document) ==> distinct_keys(document),
    decreases fields.len(),
{
    if fields.len() > 0 {
        lemma_decoded_onto_distinct(start, fields.drop_last());
        match decoded_onto(start, fields.drop_last()) {
            Ok(document) => match contribution(fields.last()) {
                Ok((name, value)) => {
                    law_merge_keeps_keys_distinct(document, name, value);
                },
                Err(_) => {},
            },
            Err(_) => {},
        }
    }
}

/// Decoding fields and then further fields is decoding all of them.
pub proof fn lemma_decoded_in_parts(
    start: DocumentView,
    first: Seq<FieldSegmentView>,
    second: Seq<FieldSegmentView>,
)
    ensures
        decoded_onto(start, first + second) == match decoded_onto(start, first) {
            Ok(document) => decoded_onto(document, second),
            Err(e) => Err(e),
        },
    decreases second.len(),
{
    if second.len() == 0 {
        assert(first + second =~= first);
    } else {
        lemma_decoded_in_parts(start, first, second.drop_last());
        assert((first + second).drop_last() =~= first + second.drop_last());
        assert((first + second).last() == second.last());
    }
}

/// A field that carries a file name is never read as a scalar: whatever
/// its body holds, and even where the file name is empty, it becomes a file
/// of all its chunks under its own name, or fails with the transport.
pub proof fn law_file_name_makes_file(field: FieldSegmentView)
    requires
        field.meta.name is Some,
        field.meta.filename is Some,
    ensures
        !field.broken ==> contribution(field) == Ok::<(Seq<char>, ValueView), DecodeErrorView>(
            (
                field.meta.name->0,
                ValueView::File(
                    FileView {
                        content_type: field.meta.content_type,
                        name: field.meta.filename->0,
                        data: concatenation(field.chunks),
                    },
                ),
            ),
        ),
        field.broken ==> contribution(field) == Err::<(Seq<char>, ValueView), DecodeErrorView>(
            DecodeErrorView::Transport,
        ),
{
}

/// A scalar field whose body is not UTF-8 text does not fail the decode:
/// it contributes null.
pub proof fn law_invalid_text_is_no_failure(field: FieldSegmentView)
    requires
        field.meta.name is Some,
        field.meta.filename is None,
        field.chunks.len() > 0,
        !vstd::utf8::valid_utf8(field.chunks[0]),
    ensures
        contribution(field) == Ok::<(Seq<char>, ValueView), DecodeErrorView>(
            (field.meta.name->0, ValueView::Null),
        ),
{
}

/// A field without a name fails the whole decode: no document comes out,
/// whatever the other fields are, and no target value, whatever the shape.
/// The error is that of a malformed field, unless the transport failed on
/// a field before it.
pub proof fn law_nameless_field_fails(fields: Seq<FieldSegmentView>, at: int, shape: ShapeView)
    requires
        0 <= at < fields.len(),
        fields[at].meta.name is None,
    ensures
        decoded(fields) is Err,
        parsed(fields, shape) is Err,
        (forall|i: int| 0 <= i < at ==> contribution(#[trigger] fields[i]) != Err::<
            (Seq<char>, ValueView),
            DecodeErrorView,
        >(DecodeErrorView::Transport)) ==> decoded(fields) == Err::<DocumentView, DecodeErrorView>(
            DecodeErrorView::MalformedField,
        ) && parsed(fields, shape) == Err::<DocumentView, DecodeErrorView>(
            DecodeErrorView::MalformedField,
        ),
{
    let start = Seq::<(Seq<char>, ValueView)>::empty();
    let upto = fields.take(at + 1);
    assert(upto.last() == fields[at]);
    assert(decoded_onto(start, upto) is Err);
    lemma_decoded_fails_on(start, fields, at + 1);
    if forall|i: int| 0 <= i < at ==> contribution(#[trigger] fields[i]) != Err::<
        (Seq<char>, ValueView),
        DecodeErrorView,
    >(DecodeErrorView::Transport) {
        lemma_decode_error_kinds(start, upto.drop_last());
        assert forall|i: int| 0 <= i < upto.drop_last().len() implies contribution(
            #[trigger] upto.drop_last()[i],
        ) != Err::<(Seq<char>, ValueView), DecodeErrorView>(DecodeErrorView::Transport) by {
            assert(upto.drop_last()[i] == fields[i]);
        }
    }
}

/// A decode fails only as one of its fields fails.
proof fn lemma_decode_error_kinds(start: DocumentView, fields: Seq<FieldSegmentView>)
    ensures
        match decoded_onto(start, fields) {
            Ok(_) => true,
            Err(e) => exists|i: int|
                0 <= i < fields.len() && contribution(#[trigger] fields[i]) == Err::<
                    (Seq<char>, ValueView),
                    DecodeErrorView,
                >(e),
        },
    decreases fields.len(),
{
    if fields.len() > 0 {
        lemma_decode_error_kinds(start, fields.drop_last());
        match decoded_onto(start, fields.drop_last()) {
            Err(e) => {
                let i = choose|i: int|
                    0 <= i < fields.drop_last().len() && contribution(
                        #[trigger] fields.drop_last()[i],
                    ) == Err::<(Seq<char>, ValueView), DecodeErrorView>(e);
                assert(fields[i] == fields.drop_last()[i]);
            },
            Ok(_) => {
                if contribution(fields.last()) is Err {
                    assert(fields[fields.len() - 1] == fields.last());
                }
            },
        }
    }
}

/// Decodes fields that are already in memory into a value of the shape.
pub fn parse(fields: Vec<FieldSegment>, shape: &Shape) -> (outcome: Result<
    Multipart<Document>,
    DecodeError,
>)
    ensures
        match outcome {
            Ok(target) => parsed(segments_view(fields@), shape@) == Ok::<
                DocumentView,
                DecodeErrorView,
            >(target@@),
            Err(e) => parsed(segments_view(fields@), shape@) == Err::<
                DocumentView,
                DecodeErrorView,
            >(e@),
        },
{
    match decode(fields) {
        Err(e) => Err(e),
        Ok(document) => match convert(document, shape) {
            Err(e) => Err(DecodeError::Validation(e)),
            Ok(target) => Ok(Multipart::new(target)),
        },
    }
}

} // verus!
