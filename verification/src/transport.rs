//! A transport that holds its fields in memory, and the proof that the
//! decoder, driven against it, decodes those fields.

use vstd::prelude::*;
use crate::document::{merged, DocumentView};
use crate::driver::{
    contribution, decoded, decoded_onto, lemma_decoded_in_parts, requested, stepped, DecoderView,
    EventView, FieldSegmentView, PendingView, Request, StepView,
};
use crate::error::DecodeErrorView;
use crate::field::{
    classified, concatenation, law_concatenation_in_parts, lemma_concatenation_of_one,
    FieldClassView,
};
use crate::file::FileView;
use crate::value::ValueView;

verus! {

/// A transport as mathematical values: what is left of the body of the
/// field that is being read, and the fields behind it.
pub struct TransportView {
    /// The chunks of the current body that have not been pulled.
    pub chunks: Seq<Seq<u8>>,
    /// Whether the current body fails behind these chunks.
    pub broken: bool,
    /// The fields that have not been pulled.
    pub fields: Seq<FieldSegmentView>,
}

/// A transport that is about to yield `fields`.
pub open spec fn transport_of(fields: Seq<FieldSegmentView>) -> TransportView {
    TransportView { chunks: Seq::empty(), broken: false, fields }
}

/// What the transport answers to a request, and what is left of it.
///
/// Asked for a field, it yields the next one and turns to its body; what
/// was left of the body before is skipped. Asked for a chunk, it yields the
/// next one of the current body, or the body's end or failure.
pub open spec fn answered(transport: TransportView, request: Request) -> (EventView, TransportView) {
    match request {
        Request::Field => if transport.fields.len() == 0 {
            (EventView::NoMoreFields, transport)
        } else {
            (
                EventView::Field(transport.fields[0].meta),
                TransportView {
                    chunks: transport.fields[0].chunks,
                    broken: transport.fields[0].broken,
                    fields: transport.fields.drop_first(),
                },
            )
        },
        Request::Chunk => if transport.chunks.len() > 0 {
            (
                EventView::Chunk(transport.chunks[0]),
                TransportView { chunks: transport.chunks.drop_first(), ..transport },
            )
        } else if transport.broken {
            (EventView::Failure, transport)
        } else {
            (EventView::NoMoreChunks, transport)
        },
    }
}

/// An upper bound on the pulls that fields can still answer.
pub open spec fn pulls_left(fields: Seq<FieldSegmentView>) -> nat
    decreases fields.len(),
{
    if fields.len() == 0 {
        0
    } else {
        fields[0].chunks.len() + 2 + pulls_left(fields.drop_first())
    }
}

/// An upper bound on the steps that a decode can still take.
pub open spec fn steps_left(pending: PendingView, transport: TransportView) -> nat {
    pulls_left(transport.fields) + transport.chunks.len() + if pending is Field {
        1nat
    } else {
        2nat
    }
}

/// The outcome of a decode that is driven against a transport: the decoder
/// asks, the transport answers, the decoder steps, until it is done or has
/// failed.
pub open spec fn session(decoder: DecoderView, transport: TransportView) -> Result<
    DocumentView,
    DecodeErrorView,
>
    decreases steps_left(decoder.pending, transport),
{
    let (event, rest) = answered(transport, requested(decoder.pending));
    match stepped(decoder, event) {
        StepView::Continue(next) => session(next, rest),
        StepView::Done(document) => Ok(document),
        StepView::Failed(e) => Err(e),
    }
}

/// What fields make of a document is what the fields behind the first
/// make of the document with the first one's contribution merged in.
proof fn lemma_decoded_first(start: DocumentView, fields: Seq<FieldSegmentView>)
    requires
        fields.len() > 0,
    ensures
        decoded_onto(start, fields) == match contribution(fields[0]) {
            Err(e) => Err(e),
            Ok((name, value)) => decoded_onto(merged(start, name, value), fields.drop_first()),
        },
{
    let first = seq![fields[0]];
    lemma_decoded_in_parts(start, first, fields.drop_first());
    assert(first + fields.drop_first() =~= fields);
    assert(first.drop_last() =~= Seq::<FieldSegmentView>::empty());
    assert(decoded_onto(start, first.drop_last()) == Ok::<DocumentView, DecodeErrorView>(start));
}

/// A decode that waits for a chunk of an attachment fails where the body
/// is broken, and else goes on, once the body is read, with the file of
/// what had arrived and of the chunks that were left.
proof fn lemma_attachment_session(
    document: DocumentView,
    name: Seq<char>,
    filename: Seq<char>,
    content_type: Seq<char>,
    data: Seq<u8>,
    transport: TransportView,
)
    ensures
        session(
            DecoderView {
                document,
                pending: PendingView::Attachment { name, filename, content_type, data },
            },
            transport,
        ) == if transport.broken {
            Err::<DocumentView, DecodeErrorView>(DecodeErrorView::Transport)
        } else {
            session(
                DecoderView {
                    document: merged(
                        document,
                        name,
                        ValueView::File(
                            FileView {
                                content_type,
                                name: filename,
                                data: data + concatenation(transport.chunks),
                            },
                        ),
                    ),
                    pending: PendingView::Field,
                },
                TransportView { chunks: Seq::empty(), ..transport },
            )
        },
    decreases transport.chunks.len(),
{
    let chunks = transport.chunks;
    if chunks.len() > 0 {
        let rest = TransportView { chunks: chunks.drop_first(), ..transport };
        lemma_attachment_session(document, name, filename, content_type, data + chunks[0], rest);
        law_concatenation_in_parts(seq![chunks[0]], chunks.drop_first());
        assert(seq![chunks[0]] + chunks.drop_first() =~= chunks);
        lemma_concatenation_of_one(chunks[0]);
        assert(data + chunks[0] + concatenation(chunks.drop_first()) =~= data + concatenation(
            chunks,
        ));
    } else {
        assert(chunks =~= Seq::<Seq<u8>>::empty());
        assert(data + concatenation(chunks) =~= data);
    }
}

/// A decode that waits for a field, driven against a transport, makes of
/// its document what the fields that the transport still holds make of
/// it.
proof fn lemma_session_decodes(document: DocumentView, transport: TransportView)
    ensures
        session(DecoderView { document, pending: PendingView::Field }, transport) == decoded_onto(
            document,
            transport.fields,
        ),
    decreases transport.fields.len(),
{
    let fields = transport.fields;
    if fields.len() > 0 {
        let field = fields[0];
        let body = TransportView {
            chunks: field.chunks,
            broken: field.broken,
            fields: fields.drop_first(),
        };
        lemma_decoded_first(document, fields);
        match classified(field.meta) {
            Err(_) => {},
            Ok(FieldClassView::Scalar { name }) => {
                let waiting = DecoderView { document, pending: PendingView::Scalar { name } };
                assert(session(DecoderView { document, pending: PendingView::Field }, transport)
                    == session(waiting, body));
                if field.chunks.len() > 0 {
                    lemma_session_decodes(
                        merged(document, name, crate::scalar::coerced(field.chunks[0])),
                        TransportView { chunks: field.chunks.drop_first(), ..body },
                    );
                } else if !field.broken {
                    lemma_session_decodes(merged(document, name, ValueView::Null), body);
                }
            },
            Ok(FieldClassView::Attachment { name, filename, content_type }) => {
                lemma_attachment_session(
                    document,
                    name,
                    filename,
                    content_type,
                    Seq::empty(),
                    body,
                );
                assert(Seq::<u8>::empty() + concatenation(field.chunks) =~= concatenation(
                    field.chunks,
                ));
                if !field.broken {
                    lemma_session_decodes(
                        merged(
                            document,
                            name,
                            ValueView::File(
                                FileView {
                                    content_type,
                                    name: filename,
                                    data: concatenation(field.chunks),
                                },
                            ),
                        ),
                        TransportView { chunks: Seq::empty(), ..body },
                    );
                }
            },
        }
    }
}

/// The decoder, driven from its start against a transport that yields
/// `fields`, ends with the document that the fields decode to, or with the
/// error with which their decode fails.
pub proof fn law_session_decodes(fields: Seq<FieldSegmentView>)
    ensures
        session(
            DecoderView { document: Seq::empty(), pending: PendingView::Field },
            transport_of(fields),
        ) == decoded(fields),
{
    lemma_session_decodes(Seq::empty(), transport_of(fields));
}

} // verus!
