//! One attachment as the read path hands it to callers: its row fields
//! and its ordered pages.

use vstd::prelude::*;

use crate::attachment_page::AttachmentPage;

verus! {

/// One attachment with its ordered page set.
pub struct Attachment {
    pub attachment_id: u32,
    pub pages: Vec<AttachmentPage>,
    pub reference_number: String,
    pub comment: String,
    pub date_added: i64,
    pub document_id: u32,
}

impl Attachment {
    /// Assembles an attachment from its parts.
    pub fn new(
        attachment_id: u32,
        pages: Vec<AttachmentPage>,
        reference_number: String,
        comment: String,
        date_added: i64,
        document_id: u32,
    ) -> (a: Attachment)
        ensures
            a.attachment_id == attachment_id,
            a.pages == pages,
            a.reference_number == reference_number,
            a.comment == comment,
            a.date_added == date_added,
            a.document_id == document_id,
    {
        Attachment { attachment_id, pages, reference_number, comment, date_added, document_id }
    }

    pub fn get_attachment_id(&self) -> (r: u32)
        ensures
            r == self.attachment_id,
    {
        self.attachment_id
    }

    /// The ordered page set.
    pub fn pages(&self) -> (r: &Vec<AttachmentPage>)
        ensures
            r == &self.pages,
    {
        &self.pages
    }

    /// One page by its 0-based position.
    pub fn page(&self, i: usize) -> (r: &AttachmentPage)
        requires
            i < self.pages@.len(),
        ensures
            r == &self.pages@[i as int],
    {
        &self.pages[i]
    }

    pub fn get_reference_number(&self) -> (r: String)
        ensures
            r@ == self.reference_number@,
    {
        self.reference_number.clone()
    }

    pub fn get_comment(&self) -> (r: String)
        ensures
            r@ == self.comment@,
    {
        self.comment.clone()
    }

    pub fn get_date_added(&self) -> (r: i64)
        ensures
            r == self.date_added,
    {
        self.date_added
    }

    pub fn get_document_id(&self) -> (r: u32)
        ensures
            r == self.document_id,
    {
        self.document_id
    }
}

} // verus!
