//! The read path: the fixed three-level eager fetch.  Every document is
//! returned with its attachments, and every attachment with its pages,
//! each page carrying the bytes its file yielded.  A page whose file is
//! missing comes back with an empty image — the consistency fault is
//! detected, reported through the data, and never stops the read.

use vstd::prelude::*;

use crate::attachment::Attachment;
use crate::attachment_page::AttachmentPage;
use crate::document::Document;
use crate::fs_state::FsModel;
use crate::fs_state::FsState;
use crate::fs_state::clone_bytes;
use crate::fs_state::file_bytes;
use crate::fs_state::fs_wf;
use crate::fs_state::has_file;
use crate::store::AttModel;
use crate::store::DocModel;
use crate::store::MetaStore;
use crate::store::PageModel;
use crate::store::StoreModel;
use crate::sync::lemma_pages_of_push;
use crate::sync::pages_of;

verus! {

/// The attachment rows that belong to one document, in row order.
pub open spec fn atts_of(atts: Seq<AttModel>, document_id: u32) -> Seq<AttModel> {
    atts.filter(|a: AttModel| a.document_id == document_id)
}

/// Unfolds `atts_of` over one appended row.
pub proof fn lemma_atts_of_push(atts: Seq<AttModel>, x: AttModel, document_id: u32)
    ensures
        atts_of(atts.push(x), document_id) == if x.document_id == document_id {
            atts_of(atts, document_id).push(x)
        } else {
            atts_of(atts, document_id)
        },
{
    reveal(Seq::filter);
    assert(atts.push(x).drop_last() =~= atts);
    assert(atts.push(x).last() == x);
}

/// The page entity reflects its row, and its image is exactly what the
/// filesystem holds at the row's path — or empty where the file is
/// missing.
pub open spec fn page_matches(p: AttachmentPage, fsm: FsModel, model: PageModel) -> bool {
    &&& p.page_id == model.page_id
    &&& p.file_path@ == model.file_path
    &&& p.attachment_id == model.attachment_id
    &&& if has_file(fsm.files, model.file_path) {
        p.image@ == file_bytes(fsm.files, model.file_path)
    } else {
        p.image@ == Seq::<u8>::empty()
    }
}

/// The attachment entity reflects its row and carries exactly its page
/// rows, in row order.
pub open spec fn attachment_matches(
    a: Attachment,
    m: StoreModel,
    fsm: FsModel,
    model: AttModel,
) -> bool {
    &&& a.attachment_id == model.attachment_id
    &&& a.reference_number@ == model.reference_number
    &&& a.comment@ == model.comment
    &&& a.date_added == model.date_added
    &&& a.document_id == model.document_id
    &&& a.pages@.len() == pages_of(m.pages, model.attachment_id).len()
    &&& forall|j: int|
        0 <= j < a.pages@.len() ==> page_matches(
            #[trigger] a.pages@[j],
            fsm,
            pages_of(m.pages, model.attachment_id)[j],
        )
}

/// The document entity reflects its row and carries exactly its
/// attachment rows, in row order.
pub open spec fn document_matches(
    d: Document,
    m: StoreModel,
    fsm: FsModel,
    model: DocModel,
) -> bool {
    &&& d.document_id == model.document_id
    &&& d.document_number@ == model.document_number
    &&& d.document_type@ == model.document_type
    &&& d.comment@ == model.comment
    &&& d.date_added == model.date_added
    &&& d.attachments matches Some(av) && av@.len() == atts_of(
        m.attachments,
        model.document_id,
    ).len() && (forall|j: int|
        0 <= j < av@.len() ==> attachment_matches(
            #[trigger] av@[j],
            m,
            fsm,
            atts_of(m.attachments, model.document_id)[j],
        ))
}

impl MetaStore {
    /// Reads one attachment's pages, in row order, pulling each page's
    /// bytes from the filesystem.
    pub fn read_page_table(&self, attachment_id: u32, fs: &FsState) -> (r: Vec<AttachmentPage>)
        requires
            fs_wf(fs@),
        ensures
            r@.len() == pages_of(self@.pages, attachment_id).len(),
            forall|j: int|
                0 <= j < r@.len() ==> page_matches(
                    #[trigger] r@[j],
                    fs@,
                    pages_of(self@.pages, attachment_id)[j],
                ),
    {
        let mut r: Vec<AttachmentPage> = Vec::new();
        let mut i: usize = 0;
        while i < self.pages.len()
            invariant
                i <= self.pages.len(),
                fs_wf(fs@),
                r@.len() == pages_of(self@.pages.subrange(0, i as int), attachment_id).len(),
                forall|j: int|
                    0 <= j < r@.len() ==> page_matches(
                        #[trigger] r@[j],
                        fs@,
                        pages_of(self@.pages.subrange(0, i as int), attachment_id)[j],
                    ),
            decreases self.pages.len() - i,
        {
            let ghost prefix = self@.pages.subrange(0, i as int);
            let row = &self.pages[i];
            if row.attachment_id == attachment_id {
                let bytes = match fs.read_file(&row.file_path) {
                    Some(b) => Some(clone_bytes(b)),
                    None => None,
                };
                r.push(
                    AttachmentPage::new(
                        row.page_id,
                        row.file_path.clone(),
                        row.attachment_id,
                        bytes,
                    ),
                );
            }
            proof {
                assert(self@.pages.subrange(0, i + 1) =~= prefix.push(self@.pages[i as int]));
                lemma_pages_of_push(prefix, self@.pages[i as int], attachment_id);
            }
            i = i + 1;
        }
        proof {
            assert(self@.pages.subrange(0, self@.pages.len() as int) =~= self@.pages);
        }
        r
    }

    /// Reads one document's attachments, in row order, each with its
    /// eagerly fetched pages.
    pub fn read_attachment_table(&self, document_id: u32, fs: &FsState) -> (r: Vec<Attachment>)
        requires
            fs_wf(fs@),
        ensures
            r@.len() == atts_of(self@.attachments, document_id).len(),
            forall|k: int|
                0 <= k < r@.len() ==> attachment_matches(
                    #[trigger] r@[k],
                    self@,
                    fs@,
                    atts_of(self@.attachments, document_id)[k],
                ),
    {
        let mut r: Vec<Attachment> = Vec::new();
        let mut i: usize = 0;
        while i < self.attachments.len()
            invariant
                i <= self.attachments.len(),
                fs_wf(fs@),
                r@.len() == atts_of(self@.attachments.subrange(0, i as int), document_id).len(),
                forall|k: int|
                    0 <= k < r@.len() ==> attachment_matches(
                        #[trigger] r@[k],
                        self@,
                        fs@,
                        atts_of(self@.attachments.subrange(0, i as int), document_id)[k],
                    ),
            decreases self.attachments.len() - i,
        {
            let ghost prefix = self@.attachments.subrange(0, i as int);
            let row = &self.attachments[i];
            if row.document_id == document_id {
                let pages = self.read_page_table(row.attachment_id, fs);
                r.push(
                    Attachment::new(
                        row.attachment_id,
                        pages,
                        row.reference_number.clone(),
                        row.comment.clone(),
                        row.date_added,
                        row.document_id,
                    ),
                );
            }
            proof {
                assert(self@.attachments.subrange(0, i + 1) =~= prefix.push(
                    self@.attachments[i as int],
                ));
                lemma_atts_of_push(prefix, self@.attachments[i as int], document_id);
            }
            i = i + 1;
        }
        proof {
            assert(self@.attachments.subrange(0, self@.attachments.len() as int)
                =~= self@.attachments);
        }
        r
    }

    /// Reads every document with its attachments and their pages — the
    /// fixed three-level eager fetch of the read contract.
    pub fn read_document_table(&self, fs: &FsState) -> (r: Vec<Document>)
        requires
            fs_wf(fs@),
        ensures
            r@.len() == self@.documents.len(),
            forall|k: int|
                0 <= k < r@.len() ==> document_matches(
                    #[trigger] r@[k],
                    self@,
                    fs@,
                    self@.documents[k],
                ),
    {
        let mut r: Vec<Document> = Vec::new();
        let mut i: usize = 0;
        while i < self.documents.len()
            invariant
                i <= self.documents.len(),
                fs_wf(fs@),
                r@.len() == i,
                forall|k: int|
                    0 <= k < i ==> document_matches(
                        #[trigger] r@[k],
                        self@,
                        fs@,
                        self@.documents[k],
                    ),
            decreases self.documents.len() - i,
        {
            let row = &self.documents[i];
            let atts = self.read_attachment_table(row.document_id, fs);
            r.push(
                Document::new(
                    row.document_id,
                    row.document_number.clone(),
                    row.document_type.clone(),
                    Some(atts),
                    row.comment.clone(),
                    row.date_added,
                ),
            );
            i = i + 1;
        }
        r
    }
}

} // verus!
