//! One document as the read path hands it to callers: its row fields and,
//! when eagerly fetched, its attachments.

use vstd::prelude::*;

use crate::attachment::Attachment;

verus! {

/// One document, optionally carrying its eagerly fetched attachments.
pub struct Document {
    pub document_id: u32,
    pub document_number: String,
    pub document_type: String,
    pub attachments: Option<Vec<Attachment>>,
    pub comment: String,
    pub date_added: i64,
}

impl Document {
    /// Assembles a document from its parts.
    pub fn new(
        document_id: u32,
        document_number: String,
        document_type: String,
        attachments: Option<Vec<Attachment>>,
        comment: String,
        date_added: i64,
    ) -> (d: Document)
        ensures
            d.document_id == document_id,
            d.document_number == document_number,
            d.document_type == document_type,
            d.attachments == attachments,
            d.comment == comment,
            d.date_added == date_added,
    {
        Document { document_id, document_number, document_type, attachments, comment, date_added }
    }

    pub fn get_document_id(&self) -> (r: u32)
        ensures
            r == self.document_id,
    {
        self.document_id
    }

    pub fn get_document_number(&self) -> (r: String)
        ensures
            r@ == self.document_number@,
    {
        self.document_number.clone()
    }

    pub fn get_document_type(&self) -> (r: String)
        ensures
            r@ == self.document_type@,
    {
        self.document_type.clone()
    }

    /// The eagerly fetched attachments, if this document carries them.
    pub fn get_attachments(&self) -> (r: &Option<Vec<Attachment>>)
        ensures
            r == &self.attachments,
    {
        &self.attachments
    }

    pub fn get_comment(&self) -> (r: String)
        ensures
            r@ == self.comment@,
    {
        self.comment.clone()
    }

    pub fn get_date_added(&self) -> (r: i64)
        ensures
            r == self.date_added,
    {
        self.date_added
    }
}

} // verus!
