//! File attachments.

use vstd::prelude::*;

verus! {

/// What a [`File`] holds, as mathematical values.
pub struct FileView {
    /// The content type that the field declared.
    pub content_type: Seq<char>,
    /// The file name that the field carried.
    pub name: Seq<char>,
    /// The bytes of the body.
    pub data: Seq<u8>,
}

/// An attachment: a field that carried a file name, with its declared
/// content type and the bytes of its body. Immutable once built.
#[derive(Debug, Clone, PartialEq, Eq)]
pub struct File {
    content_type: String,
    name: String,
    data: Vec<u8>,
}

impl View for File {
    type V = FileView;

    closed spec fn view(&self) -> FileView {
        FileView { content_type: self.content_type@, name: self.name@, data: self.data@ }
    }
}

impl File {
    /// Builds an attachment from its three parts.
    pub fn new(content_type: String, name: String, data: Vec<u8>) -> (file: File)
        ensures
            file@ == (FileView { content_type: content_type@, name: name@, data: data@ }),
    {
        File { content_type, name, data }
    }

    /// The declared content type.
    pub fn content_type(&self) -> (r: &String)
        ensures
            r@ == self@.content_type,
    {
        &self.content_type
    }

    /// The file name.
    pub fn name(&self) -> (r: &String)
        ensures
            r@ == self@.name,
    {
        &self.name
    }

    /// The number of bytes in the body.
    pub fn len(&self) -> (n: usize)
        ensures
            n == self@.data.len(),
    {
        self.data.len()
    }

    /// The bytes of the body.
    pub fn data(&self) -> (r: &Vec<u8>)
        ensures
            r@ == self@.data,
    {
        &self.data
    }
}

} // verus!
