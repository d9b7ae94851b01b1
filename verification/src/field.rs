//! Field segments: what the transport says of a field, how a field is
//! classified, and how the body of an attachment is collected.

use vstd::prelude::*;
use crate::error::{DecodeError, DecodeErrorView};
use crate::file::{File, FileView};

verus! {

/// The text of an optional string.
pub open spec fn text_view(text: Option<String>) -> Option<Seq<char>> {
    match text {
        Some(t) => Some(t@),
        None => None,
    }
}

/// The metadata of a field as mathematical values.
pub struct FieldMetaView {
    pub name: Option<Seq<char>>,
    pub filename: Option<Seq<char>>,
    pub content_type: Seq<char>,
}

/// What the transport says of a field before its body is read.
#[derive(Debug, PartialEq, Eq)]
pub struct FieldMeta {
    /// The field's name, where it has one.
    pub name: Option<String>,
    /// The file name, where the field carries one; it may be empty.
    pub filename: Option<String>,
    /// The declared content type.
    pub content_type: String,
}

impl View for FieldMeta {
    type V = FieldMetaView;

    open spec fn view(&self) -> FieldMetaView {
        FieldMetaView {
            name: text_view(self.name),
            filename: text_view(self.filename),
            content_type: self.content_type@,
        }
    }
}

/// How a field is to be read, as mathematical values.
pub enum FieldClassView {
    Attachment { name: Seq<char>, filename: Seq<char>, content_type: Seq<char> },
    Scalar { name: Seq<char> },
}

/// How a field is to be read.
#[derive(Debug, PartialEq, Eq)]
pub enum FieldClass {
    /// The field carries a file name: its whole body becomes a file, and
    /// its content type is kept.
    Attachment { name: String, filename: String, content_type: String },
    /// The field carries no file name: its body is coerced into a value,
    /// and its content type is dropped.
    Scalar { name: String },
}

impl View for FieldClass {
    type V = FieldClassView;

    open spec fn view(&self) -> FieldClassView {
        match self {
            FieldClass::Attachment { name, filename, content_type } => FieldClassView::Attachment {
                name: name@,
                filename: filename@,
                content_type: content_type@,
            },
            FieldClass::Scalar { name } => FieldClassView::Scalar { name: name@ },
        }
    }
}

/// The class of a field with this metadata. A field without a name has
/// none. Whether a file name is present decides, not what it holds.
pub open spec fn classified(meta: FieldMetaView) -> Result<FieldClassView, DecodeErrorView> {
    match meta.name {
        None => Err(DecodeErrorView::MalformedField),
        Some(name) => match meta.filename {
            Some(filename) => Ok(
                FieldClassView::Attachment { name, filename, content_type: meta.content_type },
            ),
            None => Ok(FieldClassView::Scalar { name }),
        },
    }
}

/// Classifies a field by its metadata.
pub fn classify(meta: FieldMeta) -> (class: Result<FieldClass, DecodeError>)
    ensures
        match class {
            Ok(c) => classified(meta@) == Ok::<FieldClassView, DecodeErrorView>(c@),
            Err(e) => classified(meta@) == Err::<FieldClassView, DecodeErrorView>(e@),
        },
{
    let FieldMeta { name, filename, content_type } = meta;
    match name {
        None => Err(DecodeError::MalformedField),
        Some(name) => match filename {
            Some(filename) => Ok(FieldClass::Attachment { name, filename, content_type }),
            None => Ok(FieldClass::Scalar { name }),
        },
    }
}

/// The chunks of a body as byte strings.
pub open spec fn chunks_view(chunks: Seq<Vec<u8>>) -> Seq<Seq<u8>> {
    Seq::new(chunks.len(), |i: int| chunks[i]@)
}

/// The chunks laid end to end, in the order in which they arrived.
pub open spec fn concatenation(chunks: Seq<Seq<u8>>) -> Seq<u8>
    decreases chunks.len(),
{
    if chunks.len() == 0 {
        Seq::empty()
    } else {
        concatenation(chunks.drop_last()) + chunks.last()
    }
}

/// The lengths of the chunks, added up.
pub open spec fn total_len(chunks: Seq<Seq<u8>>) -> nat
    decreases chunks.len(),
{
    if chunks.len() == 0 {
        0
    } else {
        total_len(chunks.drop_last()) + chunks.last().len()
    }
}

/// The chunks laid end to end are as long as the chunks together.
pub proof fn law_concatenation_len(chunks: Seq<Seq<u8>>)
    ensures
        concatenation(chunks).len() == total_len(chunks),
    decreases chunks.len(),
{
    if chunks.len() > 0 {
        law_concatenation_len(chunks.drop_last());
    }
}

/// Laid end to end, chunks and then further chunks are all of them laid
/// end to end: every byte stays where its chunk's place in the order of
/// arrival puts it.
pub proof fn law_concatenation_in_parts(first: Seq<Seq<u8>>, second: Seq<Seq<u8>>)
    ensures
        concatenation(first + second) == concatenation(first) + concatenation(second),
    decreases second.len(),
{
    if second.len() == 0 {
        assert(first + second =~= first);
    } else {
        law_concatenation_in_parts(first, second.drop_last());
        assert((first + second).drop_last() =~= first + second.drop_last());
        assert((first + second).last() == second.last());
    }
}

/// One chunk laid end to end is the chunk.
pub proof fn lemma_concatenation_of_one(chunk: Seq<u8>)
    ensures
        concatenation(seq![chunk]) == chunk,
{
    let chunks = seq![chunk];
    assert(chunks.drop_last() =~= Seq::<Seq<u8>>::empty());
    assert(concatenation(chunks.drop_last()) =~= Seq::<u8>::empty());
    assert(concatenation(chunks) =~= chunk);
}

/// The file that an attachment with these chunks becomes.
pub open spec fn collected(
    filename: Seq<char>,
    content_type: Seq<char>,
    chunks: Seq<Seq<u8>>,
) -> FileView {
    FileView { content_type, name: filename, data: concatenation(chunks) }
}

/// Collects the body of an attachment: its chunks, end to end, under the
/// file name and the content type of the field.
pub fn collect(filename: String, content_type: String, chunks: Vec<Vec<u8>>) -> (file: File)
    ensures
        file@ == collected(filename@, content_type@, chunks_view(chunks@)),
        file@.data.len() == total_len(chunks_view(chunks@)),
{
    let ghost all = chunks_view(chunks@);
    let mut data: Vec<u8> = Vec::new();
    for chunk in it: chunks.into_iter()
        invariant
            chunks_view(it.seq()) == all,
            data@ == concatenation(all.take(it.index() as int)),
    {
        let mut chunk = chunk;
        proof {
            let at = it.index() as int;
            assert(all.take(at + 1).drop_last() =~= all.take(at));
            assert(all.take(at + 1).last() == chunk@);
        }
        data.append(&mut chunk);
    }
    proof {
        assert(all.take(all.len() as int) =~= all);
        law_concatenation_len(all);
    }
    File::new(content_type, filename, data)
}

} // verus!
