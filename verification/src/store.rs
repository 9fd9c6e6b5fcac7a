//! The metadata store: relational rows for documents, attachments and
//! pages, with store-assigned identifiers, uniqueness enforcement and
//! cascading deletion.
//!
//! Every mutating operation states its result as an exact transform of the
//! previous table contents, so callers (and the synchronizer's laws) can
//! reason about the rows that are left behind.  Multi-row writes happen on
//! the in-memory tables at once — a failed validation never leaves a
//! partial page set.

use vstd::prelude::*;

use crate::seq_facts::lemma_filter_elements;
use crate::seq_facts::lemma_filter_preserves_pairwise;
use crate::seq_facts::lemma_filter_push;

verus! {

/// One row of the document table.
pub struct DocumentRow {
    pub document_id: u32,
    pub document_number: String,
    pub document_type: String,
    pub comment: String,
    pub date_added: i64,
}

/// One row of the attachment table.
pub struct AttachmentRow {
    pub attachment_id: u32,
    pub reference_number: String,
    pub comment: String,
    pub date_added: i64,
    pub document_id: u32,
}

/// One row of the page table.
pub struct PageRow {
    pub page_id: u32,
    pub file_path: String,
    pub attachment_id: u32,
}

/// Spec-level image of a document row.
pub struct DocModel {
    pub document_id: u32,
    pub document_number: Seq<char>,
    pub document_type: Seq<char>,
    pub comment: Seq<char>,
    pub date_added: i64,
}

/// Spec-level image of an attachment row.
pub struct AttModel {
    pub attachment_id: u32,
    pub reference_number: Seq<char>,
    pub comment: Seq<char>,
    pub date_added: i64,
    pub document_id: u32,
}

/// Spec-level image of a page row.
pub struct PageModel {
    pub page_id: u32,
    pub file_path: Seq<char>,
    pub attachment_id: u32,
}

impl View for DocumentRow {
    type V = DocModel;

    open spec fn view(&self) -> DocModel {
        DocModel {
            document_id: self.document_id,
            document_number: self.document_number@,
            document_type: self.document_type@,
            comment: self.comment@,
            date_added: self.date_added,
        }
    }
}

impl View for AttachmentRow {
    type V = AttModel;

    open spec fn view(&self) -> AttModel {
        AttModel {
            attachment_id: self.attachment_id,
            reference_number: self.reference_number@,
            comment: self.comment@,
            date_added: self.date_added,
            document_id: self.document_id,
        }
    }
}

impl View for PageRow {
    type V = PageModel;

    open spec fn view(&self) -> PageModel {
        PageModel {
            page_id: self.page_id,
            file_path: self.file_path@,
            attachment_id: self.attachment_id,
        }
    }
}

pub open spec fn docs_view(v: Seq<DocumentRow>) -> Seq<DocModel> {
    v.map_values(|r: DocumentRow| r@)
}

pub open spec fn atts_view(v: Seq<AttachmentRow>) -> Seq<AttModel> {
    v.map_values(|r: AttachmentRow| r@)
}

pub open spec fn pages_view(v: Seq<PageRow>) -> Seq<PageModel> {
    v.map_values(|r: PageRow| r@)
}

/// Spec-level image of the whole store.
pub struct StoreModel {
    pub documents: Seq<DocModel>,
    pub attachments: Seq<AttModel>,
    pub pages: Seq<PageModel>,
    pub next_document_id: u32,
    pub next_attachment_id: u32,
    pub next_page_id: u32,
}

/// How a store operation can fail.  Uniqueness and validation faults are
/// surfaced to the caller and never retried; nothing is written when they
/// occur.
#[derive(Clone, Copy, Debug, PartialEq, Eq, Structural)]
pub enum StoreError {
    /// A required field (document number, reference number) was empty.
    EmptyRequiredField,
    /// A document number or reference number is already in use.
    DuplicateIdentifier,
    /// The addressed row does not exist.
    NotFound,
    /// No store-assigned identifier is left to hand out.
    IdSpaceExhausted,
}

pub open spec fn doc_number_taken(docs: Seq<DocModel>, n: Seq<char>) -> bool {
    exists|i: int| 0 <= i < docs.len() && (#[trigger] docs[i]).document_number == n
}

pub open spec fn ref_number_taken(atts: Seq<AttModel>, n: Seq<char>) -> bool {
    exists|i: int| 0 <= i < atts.len() && (#[trigger] atts[i]).reference_number == n
}

/// Some other document (a different id) already uses the number.
pub open spec fn doc_number_taken_by_other(docs: Seq<DocModel>, id: u32, n: Seq<char>) -> bool {
    exists|i: int|
        0 <= i < docs.len() && (#[trigger] docs[i]).document_number == n && docs[i].document_id
            != id
}

pub open spec fn ref_number_taken_by_other(atts: Seq<AttModel>, id: u32, n: Seq<char>) -> bool {
    exists|i: int|
        0 <= i < atts.len() && (#[trigger] atts[i]).reference_number == n && atts[i].attachment_id
            != id
}

pub open spec fn has_doc(docs: Seq<DocModel>, id: u32) -> bool {
    exists|i: int| 0 <= i < docs.len() && (#[trigger] docs[i]).document_id == id
}

pub open spec fn has_att(atts: Seq<AttModel>, id: u32) -> bool {
    exists|i: int| 0 <= i < atts.len() && (#[trigger] atts[i]).attachment_id == id
}

/// Well-formedness of the relational state: identifiers are unique and
/// below the hand-out counters, document numbers and reference numbers are
/// globally unique, and both foreign keys resolve.
pub open spec fn store_wf(m: StoreModel) -> bool {
    &&& forall|i: int, j: int|
        0 <= i < j < m.documents.len() ==> (#[trigger] m.documents[i]).document_id != (
        #[trigger] m.documents[j]).document_id && m.documents[i].document_number
            != m.documents[j].document_number
    &&& forall|i: int|
        0 <= i < m.documents.len() ==> (#[trigger] m.documents[i]).document_id
            < m.next_document_id
    &&& forall|i: int, j: int|
        0 <= i < j < m.attachments.len() ==> (#[trigger] m.attachments[i]).attachment_id != (
        #[trigger] m.attachments[j]).attachment_id && m.attachments[i].reference_number
            != m.attachments[j].reference_number
    &&& forall|i: int|
        0 <= i < m.attachments.len() ==> (#[trigger] m.attachments[i]).attachment_id
            < m.next_attachment_id
    &&& forall|i: int|
        0 <= i < m.attachments.len() ==> has_doc(
            m.documents,
            (#[trigger] m.attachments[i]).document_id,
        )
    &&& forall|i: int, j: int|
        0 <= i < j < m.pages.len() ==> (#[trigger] m.pages[i]).page_id != (
        #[trigger] m.pages[j]).page_id
    &&& forall|i: int| 0 <= i < m.pages.len() ==> (#[trigger] m.pages[i]).page_id < m.next_page_id
    &&& forall|i: int|
        0 <= i < m.pages.len() ==> has_att(m.attachments, (#[trigger] m.pages[i]).attachment_id)
}

/// The document table after a detail edit.
pub open spec fn spec_update_document(
    docs: Seq<DocModel>,
    id: u32,
    n: Seq<char>,
    t: Seq<char>,
    c: Seq<char>,
) -> Seq<DocModel> {
    docs.map_values(
        |d: DocModel|
            if d.document_id == id {
                (DocModel {
                    document_id: d.document_id,
                    document_number: n,
                    document_type: t,
                    comment: c,
                    date_added: d.date_added,
                })
            } else {
                d
            },
    )
}

/// The attachment table after a detail edit.
pub open spec fn spec_update_attachment(
    atts: Seq<AttModel>,
    id: u32,
    n: Seq<char>,
    c: Seq<char>,
) -> Seq<AttModel> {
    atts.map_values(
        |a: AttModel|
            if a.attachment_id == id {
                (AttModel {
                    attachment_id: a.attachment_id,
                    reference_number: n,
                    comment: c,
                    date_added: a.date_added,
                    document_id: a.document_id,
                })
            } else {
                a
            },
    )
}

/// The fresh page rows that a multi-path insert produces: one row per
/// path, in the supplied order, with consecutive store-assigned ids.
pub open spec fn spec_new_pages(paths: Seq<Seq<char>>, first_id: u32, att_id: u32) -> Seq<
    PageModel,
> {
    Seq::new(
        paths.len(),
        |k: int|
            (PageModel {
                page_id: (first_id + k) as u32,
                file_path: paths[k],
                attachment_id: att_id,
            }),
    )
}

/// The relational store.  Tables live in row order; identifiers are handed
/// out by the `next_*` counters and never reused.
pub struct MetaStore {
    pub documents: Vec<DocumentRow>,
    pub attachments: Vec<AttachmentRow>,
    pub pages: Vec<PageRow>,
    pub next_document_id: u32,
    pub next_attachment_id: u32,
    pub next_page_id: u32,
}

impl View for MetaStore {
    type V = StoreModel;

    open spec fn view(&self) -> StoreModel {
        StoreModel {
            documents: docs_view(self.documents@),
            attachments: atts_view(self.attachments@),
            pages: pages_view(self.pages@),
            next_document_id: self.next_document_id,
            next_attachment_id: self.next_attachment_id,
            next_page_id: self.next_page_id,
        }
    }
}

impl MetaStore {
    /// A fresh, empty store.  Identifiers start at 1, as a relational
    /// store's rowids do.
    pub fn new() -> (s: MetaStore)
        ensures
            store_wf(s@),
            s@.documents.len() == 0,
            s@.attachments.len() == 0,
            s@.pages.len() == 0,
            s@.next_document_id == 1,
            s@.next_attachment_id == 1,
            s@.next_page_id == 1,
    {
        let s = MetaStore {
            documents: Vec::new(),
            attachments: Vec::new(),
            pages: Vec::new(),
            next_document_id: 1,
            next_attachment_id: 1,
            next_page_id: 1,
        };
        proof {
            assert(s@.documents =~~= Seq::<DocModel>::empty());
            assert(s@.attachments =~~= Seq::<AttModel>::empty());
            assert(s@.pages =~~= Seq::<PageModel>::empty());
        }
        s
    }

    fn document_number_in_use(&self, n: &String) -> (b: bool)
        ensures
            b == doc_number_taken(self@.documents, n@),
    {
        let mut i: usize = 0;
        while i < self.documents.len()
            invariant
                i <= self.documents.len(),
                forall|k: int|
                    0 <= k < i ==> (#[trigger] self@.documents[k]).document_number != n@,
            decreases self.documents.len() - i,
        {
            let row = &self.documents[i];
            if row.document_number == *n {
                proof {
                    assert((self@.documents[i as int]).document_number == n@);
                }
                return true;
            }
            i = i + 1;
        }
        false
    }

    fn reference_number_in_use(&self, n: &String) -> (b: bool)
        ensures
            b == ref_number_taken(self@.attachments, n@),
    {
        let mut i: usize = 0;
        while i < self.attachments.len()
            invariant
                i <= self.attachments.len(),
                forall|k: int|
                    0 <= k < i ==> (#[trigger] self@.attachments[k]).reference_number != n@,
            decreases self.attachments.len() - i,
        {
            let row = &self.attachments[i];
            if row.reference_number == *n {
                proof {
                    assert((self@.attachments[i as int]).reference_number == n@);
                }
                return true;
            }
            i = i + 1;
        }
        false
    }

    fn document_number_in_use_by_other(&self, id: u32, n: &String) -> (b: bool)
        ensures
            b == doc_number_taken_by_other(self@.documents, id, n@),
    {
        let mut i: usize = 0;
        while i < self.documents.len()
            invariant
                i <= self.documents.len(),
                forall|k: int|
                    0 <= k < i ==> !((#[trigger] self@.documents[k]).document_number == n@
                        && self@.documents[k].document_id != id),
            decreases self.documents.len() - i,
        {
            let row = &self.documents[i];
            if row.document_id != id && row.document_number == *n {
                proof {
                    assert((self@.documents[i as int]).document_number == n@);
                }
                return true;
            }
            i = i + 1;
        }
        false
    }

    fn reference_number_in_use_by_other(&self, id: u32, n: &String) -> (b: bool)
        ensures
            b == ref_number_taken_by_other(self@.attachments, id, n@),
    {
        let mut i: usize = 0;
        while i < self.attachments.len()
            invariant
                i <= self.attachments.len(),
                forall|k: int|
                    0 <= k < i ==> !((#[trigger] self@.attachments[k]).reference_number == n@
                        && self@.attachments[k].attachment_id != id),
            decreases self.attachments.len() - i,
        {
            let row = &self.attachments[i];
            if row.attachment_id != id && row.reference_number == *n {
                proof {
                    assert((self@.attachments[i as int]).reference_number == n@);
                }
                return true;
            }
            i = i + 1;
        }
        false
    }

    fn find_document(&self, id: u32) -> (r: Option<usize>)
        ensures
            match r {
                Some(k) => k < self@.documents.len() && self@.documents[k as int].document_id
                    == id,
                None => !has_doc(self@.documents, id),
            },
    {
        let mut i: usize = 0;
        while i < self.documents.len()
            invariant
                i <= self.documents.len(),
                forall|k: int| 0 <= k < i ==> (#[trigger] self@.documents[k]).document_id != id,
            decreases self.documents.len() - i,
        {
            if self.documents[i].document_id == id {
                return Some(i);
            }
            i = i + 1;
        }
        None
    }

    fn find_attachment(&self, id: u32) -> (r: Option<usize>)
        ensures
            match r {
                Some(k) => k < self@.attachments.len() && self@.attachments[k as int].attachment_id
                    == id,
                None => !has_att(self@.attachments, id),
            },
    {
        let mut i: usize = 0;
        while i < self.attachments.len()
            invariant
                i <= self.attachments.len(),
                forall|k: int| 0 <= k < i ==> (#[trigger] self@.attachments[k]).attachment_id != id,
            decreases self.attachments.len() - i,
        {
            if self.attachments[i].attachment_id == id {
                return Some(i);
            }
            i = i + 1;
        }
        None
    }

    /// Inserts a document row.  The store assigns the identifier and
    /// returns it; the document number must be non-empty and not yet in
    /// use.
    pub fn create_document(
        &mut self,
        document_number: String,
        document_type: String,
        comment: String,
        now: i64,
    ) -> (r: Result<u32, StoreError>)
        requires
            store_wf(old(self)@),
        ensures
            store_wf(final(self)@),
            r matches Err(_) ==> final(self)@ == old(self)@,
            final(self)@.attachments == old(self)@.attachments,
            final(self)@.pages == old(self)@.pages,
            final(self)@.next_attachment_id == old(self)@.next_attachment_id,
            final(self)@.next_page_id == old(self)@.next_page_id,
            document_number@.len() == 0 ==> r == Err::<u32, StoreError>(
                StoreError::EmptyRequiredField,
            ) && final(self)@ == old(self)@,
            document_number@.len() > 0 && doc_number_taken(old(self)@.documents, document_number@)
                ==> r == Err::<u32, StoreError>(StoreError::DuplicateIdentifier) && final(self)@
                == old(self)@,
            document_number@.len() > 0 && !doc_number_taken(
                old(self)@.documents,
                document_number@,
            ) && old(self)@.next_document_id == u32::MAX ==> r == Err::<u32, StoreError>(
                StoreError::IdSpaceExhausted,
            ) && final(self)@ == old(self)@,
            document_number@.len() > 0 && !doc_number_taken(
                old(self)@.documents,
                document_number@,
            ) && old(self)@.next_document_id < u32::MAX ==> r == Ok::<u32, StoreError>(
                old(self)@.next_document_id,
            ) && final(self)@.documents == old(self)@.documents.push(
                (DocModel {
                    document_id: old(self)@.next_document_id,
                    document_number: document_number@,
                    document_type: document_type@,
                    comment: comment@,
                    date_added: now,
                }),
            ) && final(self)@.next_document_id == old(self)@.next_document_id + 1,
    {
        if document_number.as_str().unicode_len() == 0 {
            return Err(StoreError::EmptyRequiredField);
        }
        if self.document_number_in_use(&document_number) {
            return Err(StoreError::DuplicateIdentifier);
        }
        if self.next_document_id == u32::MAX {
            return Err(StoreError::IdSpaceExhausted);
        }
        let id = self.next_document_id;
        let row = DocumentRow {
            document_id: id,
            document_number,
            document_type,
            comment,
            date_added: now,
        };
        self.documents.push(row);
        self.next_document_id = id + 1;
        proof {
            assert(final(self)@.documents =~~= old(self)@.documents.push(
                (DocModel {
                    document_id: id,
                    document_number: document_number@,
                    document_type: document_type@,
                    comment: comment@,
                    date_added: now,
                }),
            ));
            let docs2 = final(self)@.documents;
            let docs1 = old(self)@.documents;
            assert forall|a: int, b: int| 0 <= a < b < docs2.len() implies (
            #[trigger] docs2[a]).document_id != (#[trigger] docs2[b]).document_id
                && docs2[a].document_number != docs2[b].document_number by {
                if b == docs2.len() - 1 {
                    assert(docs2[a] == docs1[a]);
                    assert(docs1[a].document_id < old(self)@.next_document_id);
                    if docs2[a].document_number == docs2[b].document_number {
                        assert((docs1[a]).document_number == document_number@);
                        assert(doc_number_taken(docs1, document_number@));
                    }
                } else {
                    assert(docs2[a] == docs1[a]);
                    assert(docs2[b] == docs1[b]);
                }
            }
            assert forall|a: int| 0 <= a < docs2.len() implies (#[trigger] docs2[a]).document_id
                < final(self)@.next_document_id by {
                if a < docs2.len() - 1 {
                    assert(docs2[a] == docs1[a]);
                }
            }
            assert forall|a: int| 0 <= a < final(self)@.attachments.len() implies has_doc(
                docs2,
                (#[trigger] final(self)@.attachments[a]).document_id,
            ) by {
                assert(final(self)@.attachments[a] == old(self)@.attachments[a]);
                assert(has_doc(docs1, old(self)@.attachments[a].document_id));
                let w = choose|w: int|
                    0 <= w < docs1.len() && (#[trigger] docs1[w]).document_id == old(
                        self,
                    )@.attachments[a].document_id;
                assert(docs2[w].document_id == final(self)@.attachments[a].document_id);
            }
            lemma_atts_pages_wf_transfer(old(self)@, final(self)@);
        }
        Ok(id)
    }

    /// Rewrites the editable details of one document row.  The row keeps
    /// its identifier and creation timestamp; the new number must be
    /// non-empty and not used by any other document.
    pub fn update_document_details(
        &mut self,
        document_id: u32,
        document_number: String,
        document_type: String,
        comment: String,
    ) -> (r: Result<(), StoreError>)
        requires
            store_wf(old(self)@),
        ensures
            store_wf(final(self)@),
            r matches Err(_) ==> final(self)@ == old(self)@,
            final(self)@.attachments == old(self)@.attachments,
            final(self)@.pages == old(self)@.pages,
            final(self)@.next_document_id == old(self)@.next_document_id,
            final(self)@.next_attachment_id == old(self)@.next_attachment_id,
            final(self)@.next_page_id == old(self)@.next_page_id,
            document_number@.len() == 0 ==> r == Err::<(), StoreError>(
                StoreError::EmptyRequiredField,
            ) && final(self)@ == old(self)@,
            document_number@.len() > 0 && !has_doc(old(self)@.documents, document_id) ==> r
                == Err::<(), StoreError>(StoreError::NotFound) && final(self)@ == old(self)@,
            document_number@.len() > 0 && has_doc(old(self)@.documents, document_id)
                && doc_number_taken_by_other(old(self)@.documents, document_id, document_number@)
                ==> r == Err::<(), StoreError>(StoreError::DuplicateIdentifier) && final(self)@
                == old(self)@,
            document_number@.len() > 0 && has_doc(old(self)@.documents, document_id)
                && !doc_number_taken_by_other(old(self)@.documents, document_id, document_number@)
                ==> r == Ok::<(), StoreError>(()) && final(self)@.documents
                == spec_update_document(
                old(self)@.documents,
                document_id,
                document_number@,
                document_type@,
                comment@,
            ),
    {
        if document_number.as_str().unicode_len() == 0 {
            return Err(StoreError::EmptyRequiredField);
        }
        let k = match self.find_document(document_id) {
            None => {
                return Err(StoreError::NotFound);
            },
            Some(k) => k,
        };
        if self.document_number_in_use_by_other(document_id, &document_number) {
            return Err(StoreError::DuplicateIdentifier);
        }
        let old_row = self.documents.remove(k);
        let row = DocumentRow {
            document_id: old_row.document_id,
            document_number,
            document_type,
            comment,
            date_added: old_row.date_added,
        };
        self.documents.insert(k, row);
        proof {
            let updated = spec_update_document(
                old(self)@.documents,
                document_id,
                document_number@,
                document_type@,
                comment@,
            );
            assert forall|i: int| 0 <= i < updated.len() implies final(self)@.documents[i]
                == updated[i] by {
                if i != k {
                    assert(old(self)@.documents[i].document_id != document_id);
                }
            }
            assert(final(self)@.documents =~~= updated);
            let docs1 = old(self)@.documents;
            let docs2 = final(self)@.documents;
            assert forall|a: int, b: int| 0 <= a < b < docs2.len() implies (
            #[trigger] docs2[a]).document_id != (#[trigger] docs2[b]).document_id
                && docs2[a].document_number != docs2[b].document_number by {
                assert(docs2[a].document_id == docs1[a].document_id);
                assert(docs2[b].document_id == docs1[b].document_id);
                if docs1[a].document_id == document_id {
                    if docs2[b].document_number == document_number@ {
                        assert(doc_number_taken_by_other(docs1, document_id, document_number@));
                    }
                } else if docs1[b].document_id == document_id {
                    if docs2[a].document_number == document_number@ {
                        assert(doc_number_taken_by_other(docs1, document_id, document_number@));
                    }
                }
            }
            assert forall|a: int| 0 <= a < docs2.len() implies (#[trigger] docs2[a]).document_id
                < final(self)@.next_document_id by {
                assert(docs2[a].document_id == docs1[a].document_id);
            }
            assert forall|a: int| 0 <= a < final(self)@.attachments.len() implies has_doc(
                docs2,
                (#[trigger] final(self)@.attachments[a]).document_id,
            ) by {
                assert(final(self)@.attachments[a] == old(self)@.attachments[a]);
                assert(has_doc(docs1, old(self)@.attachments[a].document_id));
                let w = choose|w: int|
                    0 <= w < docs1.len() && (#[trigger] docs1[w]).document_id == old(
                        self,
                    )@.attachments[a].document_id;
                assert(docs2[w].document_id == final(self)@.attachments[a].document_id);
            }
            lemma_atts_pages_wf_transfer(old(self)@, final(self)@);
        }
        Ok(())
    }

    /// Removes one document row and, in the same step, every attachment
    /// row owned by it and every page row owned by those attachments —
    /// the cascading delete that the schema's foreign keys describe.
    pub fn delete_document(&mut self, document_id: u32) -> (r: Result<(), StoreError>)
        requires
            store_wf(old(self)@),
        ensures
            store_wf(final(self)@),
            r matches Err(_) ==> final(self)@ == old(self)@,
            final(self)@.next_document_id == old(self)@.next_document_id,
            final(self)@.next_attachment_id == old(self)@.next_attachment_id,
            final(self)@.next_page_id == old(self)@.next_page_id,
            !has_doc(old(self)@.documents, document_id) ==> r == Err::<(), StoreError>(
                StoreError::NotFound,
            ) && final(self)@ == old(self)@,
            has_doc(old(self)@.documents, document_id) ==> r == Ok::<(), StoreError>(()) && final(self)@.documents == old(self)@.documents.filter(
                |d: DocModel| d.document_id != document_id,
            ) && final(self)@.attachments == old(self)@.attachments.filter(
                |a: AttModel| a.document_id != document_id,
            ) && final(self)@.pages == old(self)@.pages.filter(
                |p: PageModel|
                    has_att(
                        old(self)@.attachments.filter(|a: AttModel| a.document_id != document_id),
                        p.attachment_id,
                    ),
            ),
    {
        if self.find_document(document_id).is_none() {
            return Err(StoreError::NotFound);
        }
        let ghost old_model = self@;
        let ghost doc_pred = |d: DocModel| d.document_id != document_id;
        let ghost att_pred = |a: AttModel| a.document_id != document_id;

        // Keep only the attachments of other documents.
        let mut kept_atts: Vec<AttachmentRow> = Vec::new();
        let mut i: usize = 0;
        while i < self.attachments.len()
            invariant
                i <= self.attachments.len(),
                self@ == old_model,
                atts_view(kept_atts@) == old_model.attachments.subrange(0, i as int).filter(
                    att_pred,
                ),
            decreases self.attachments.len() - i,
        {
            let ghost prefix = old_model.attachments.subrange(0, i as int);
            let ghost kept0 = kept_atts@;
            let row = &self.attachments[i];
            if row.document_id != document_id {
                kept_atts.push(
                    AttachmentRow {
                        attachment_id: row.attachment_id,
                        reference_number: row.reference_number.clone(),
                        comment: row.comment.clone(),
                        date_added: row.date_added,
                        document_id: row.document_id,
                    },
                );
            }
            proof {
                let x = old_model.attachments[i as int];
                assert(old_model.attachments.subrange(0, i + 1) =~= prefix.push(x));
                lemma_filter_push(prefix, x, att_pred);
                assert(atts_view(kept_atts@) =~~= old_model.attachments.subrange(0, i + 1).filter(
                    att_pred,
                ));
            }
            i = i + 1;
        }
        proof {
            assert(old_model.attachments.subrange(0, old_model.attachments.len() as int)
                =~= old_model.attachments);
        }
        let ghost atts_after = old_model.attachments.filter(att_pred);

        // Keep only the pages whose attachment survives.
        let ghost page_pred = |p: PageModel| has_att(atts_after, p.attachment_id);
        let mut kept_pages: Vec<PageRow> = Vec::new();
        let mut j: usize = 0;
        while j < self.pages.len()
            invariant
                j <= self.pages.len(),
                self@ == old_model,
                atts_view(kept_atts@) == atts_after,
                pages_view(kept_pages@) == old_model.pages.subrange(0, j as int).filter(page_pred),
            decreases self.pages.len() - j,
        {
            let ghost prefix = old_model.pages.subrange(0, j as int);
            let page = &self.pages[j];
            if vec_has_attachment(&kept_atts, page.attachment_id) {
                kept_pages.push(
                    PageRow {
                        page_id: page.page_id,
                        file_path: page.file_path.clone(),
                        attachment_id: page.attachment_id,
                    },
                );
            }
            proof {
                assert(old_model.pages.subrange(0, j + 1) =~= prefix.push(
                    old_model.pages[j as int],
                ));
                lemma_filter_push(prefix, old_model.pages[j as int], page_pred);
                assert(pages_view(kept_pages@) =~~= old_model.pages.subrange(0, j + 1).filter(
                    page_pred,
                ));
            }
            j = j + 1;
        }
        proof {
            assert(old_model.pages.subrange(0, old_model.pages.len() as int) =~= old_model.pages);
        }

        // Keep only the other documents.
        let mut kept_docs: Vec<DocumentRow> = Vec::new();
        let mut m: usize = 0;
        while m < self.documents.len()
            invariant
                m <= self.documents.len(),
                self@ == old_model,
                docs_view(kept_docs@) == old_model.documents.subrange(0, m as int).filter(
                    doc_pred,
                ),
            decreases self.documents.len() - m,
        {
            let ghost prefix = old_model.documents.subrange(0, m as int);
            let row = &self.documents[m];
            if row.document_id != document_id {
                kept_docs.push(
                    DocumentRow {
                        document_id: row.document_id,
                        document_number: row.document_number.clone(),
                        document_type: row.document_type.clone(),
                        comment: row.comment.clone(),
                        date_added: row.date_added,
                    },
                );
            }
            proof {
                assert(old_model.documents.subrange(0, m + 1) =~= prefix.push(
                    old_model.documents[m as int],
                ));
                lemma_filter_push(prefix, old_model.documents[m as int], doc_pred);
                assert(docs_view(kept_docs@) =~~= old_model.documents.subrange(0, m + 1).filter(
                    doc_pred,
                ));
            }
            m = m + 1;
        }
        proof {
            assert(old_model.documents.subrange(0, old_model.documents.len() as int)
                =~= old_model.documents);
        }

        self.documents = kept_docs;
        self.attachments = kept_atts;
        self.pages = kept_pages;

        proof {
            lemma_cascade_delete_document_wf(old_model, document_id, final(self)@);
        }
        Ok(())
    }

    /// Inserts an attachment row and, in the same step, one page row per
    /// supplied path, in the supplied order.  Either everything is
    /// inserted or nothing is.
    pub fn create_attachment(
        &mut self,
        reference_number: String,
        comment: String,
        document_id: u32,
        page_paths: Vec<String>,
        now: i64,
    ) -> (r: Result<u32, StoreError>)
        requires
            store_wf(old(self)@),
        ensures
            store_wf(final(self)@),
            r matches Err(_) ==> final(self)@ == old(self)@,
            final(self)@.documents == old(self)@.documents,
            final(self)@.next_document_id == old(self)@.next_document_id,
            reference_number@.len() == 0 ==> r == Err::<u32, StoreError>(
                StoreError::EmptyRequiredField,
            ) && final(self)@ == old(self)@,
            reference_number@.len() > 0 && ref_number_taken(
                old(self)@.attachments,
                reference_number@,
            ) ==> r == Err::<u32, StoreError>(StoreError::DuplicateIdentifier) && final(self)@
                == old(self)@,
            reference_number@.len() > 0 && !ref_number_taken(
                old(self)@.attachments,
                reference_number@,
            ) && !has_doc(old(self)@.documents, document_id) ==> r == Err::<u32, StoreError>(
                StoreError::NotFound,
            ) && final(self)@ == old(self)@,
            r matches Ok(id) ==> reference_number@.len() > 0 && !ref_number_taken(
                old(self)@.attachments,
                reference_number@,
            ) && has_doc(old(self)@.documents, document_id) && id == old(self)@.next_attachment_id
                && final(self)@.attachments == old(self)@.attachments.push(
                (AttModel {
                    attachment_id: old(self)@.next_attachment_id,
                    reference_number: reference_number@,
                    comment: comment@,
                    date_added: now,
                    document_id: document_id,
                }),
            ) && final(self)@.pages == old(self)@.pages + spec_new_pages(
                page_paths@.map_values(|p: String| p@),
                old(self)@.next_page_id,
                old(self)@.next_attachment_id,
            ) && final(self)@.next_attachment_id == old(self)@.next_attachment_id + 1 && final(self)@.next_page_id == old(self)@.next_page_id + page_paths@.len(),
            reference_number@.len() > 0 && !ref_number_taken(
                old(self)@.attachments,
                reference_number@,
            ) && has_doc(old(self)@.documents, document_id) && old(self)@.next_attachment_id
                < u32::MAX && page_paths@.len() <= u32::MAX - old(self)@.next_page_id ==> r matches
                Ok(_),
    {
        if reference_number.as_str().unicode_len() == 0 {
            return Err(StoreError::EmptyRequiredField);
        }
        if self.reference_number_in_use(&reference_number) {
            return Err(StoreError::DuplicateIdentifier);
        }
        if self.find_document(document_id).is_none() {
            return Err(StoreError::NotFound);
        }
        if self.next_attachment_id == u32::MAX {
            return Err(StoreError::IdSpaceExhausted);
        }
        if page_paths.len() as u64 > (u32::MAX - self.next_page_id) as u64 {
            return Err(StoreError::IdSpaceExhausted);
        }
        let ghost old_model = self@;
        let att_id = self.next_attachment_id;
        let first_page_id = self.next_page_id;
        let row = AttachmentRow {
            attachment_id: att_id,
            reference_number,
            comment,
            date_added: now,
            document_id,
        };
        self.attachments.push(row);
        self.next_attachment_id = att_id + 1;

        let ghost att_model = AttModel {
            attachment_id: att_id,
            reference_number: reference_number@,
            comment: comment@,
            date_added: now,
            document_id: document_id,
        };
        proof {
            assert(self@.attachments =~~= old_model.attachments.push(att_model));
        }
        let ghost path_views = page_paths@.map_values(|p: String| p@);
        let mut i: usize = 0;
        while i < page_paths.len()
            invariant
                i <= page_paths.len(),
                page_paths@.len() <= u32::MAX - first_page_id,
                self.next_page_id == first_page_id + i,
                self@.documents == old_model.documents,
                self@.attachments == old_model.attachments.push(att_model),
                self@.next_document_id == old_model.next_document_id,
                self@.next_attachment_id == att_id + 1,
                path_views == page_paths@.map_values(|p: String| p@),
                path_views.len() == page_paths@.len(),
                pages_view(self.pages@) == old_model.pages + spec_new_pages(
                    path_views.subrange(0, i as int),
                    first_page_id,
                    att_id,
                ),
            decreases page_paths.len() - i,
        {
            let page_row = PageRow {
                page_id: self.next_page_id,
                file_path: page_paths[i].clone(),
                attachment_id: att_id,
            };
            self.pages.push(page_row);
            self.next_page_id = self.next_page_id + 1;
            proof {
                let ghost before = path_views.subrange(0, i as int);
                assert(path_views.subrange(0, i + 1) =~= before.push(path_views[i as int]));
                lemma_new_pages_push(before, path_views[i as int], first_page_id, att_id);
                assert(pages_view(self.pages@) =~~= (old_model.pages + spec_new_pages(
                    before,
                    first_page_id,
                    att_id,
                )).push(page_row@));
                Seq::push_distributes_over_add(
                    old_model.pages,
                    spec_new_pages(before, first_page_id, att_id),
                    page_row@,
                );
                assert(pages_view(self.pages@) == old_model.pages + spec_new_pages(
                    path_views.subrange(0, i + 1),
                    first_page_id,
                    att_id,
                ));
            }
            i = i + 1;
        }
        proof {
            assert(path_views.subrange(0, path_views.len() as int) =~= path_views);
            assert(final(self)@.attachments =~~= old_model.attachments.push(
                (AttModel {
                    attachment_id: att_id,
                    reference_number: reference_number@,
                    comment: comment@,
                    date_added: now,
                    document_id: document_id,
                }),
            ));
            lemma_create_attachment_wf(old_model, final(self)@, att_id, first_page_id, path_views);
        }
        Ok(att_id)
    }

    /// Rewrites the editable details of one attachment row; identifier,
    /// creation timestamp and owning document are kept.
    pub fn update_attachment_details(
        &mut self,
        attachment_id: u32,
        reference_number: String,
        comment: String,
    ) -> (r: Result<(), StoreError>)
        requires
            store_wf(old(self)@),
        ensures
            store_wf(final(self)@),
            r matches Err(_) ==> final(self)@ == old(self)@,
            final(self)@.documents == old(self)@.documents,
            final(self)@.pages == old(self)@.pages,
            final(self)@.next_document_id == old(self)@.next_document_id,
            final(self)@.next_attachment_id == old(self)@.next_attachment_id,
            final(self)@.next_page_id == old(self)@.next_page_id,
            reference_number@.len() == 0 ==> r == Err::<(), StoreError>(
                StoreError::EmptyRequiredField,
            ) && final(self)@ == old(self)@,
            reference_number@.len() > 0 && !has_att(old(self)@.attachments, attachment_id) ==> r
                == Err::<(), StoreError>(StoreError::NotFound) && final(self)@ == old(self)@,
            reference_number@.len() > 0 && has_att(old(self)@.attachments, attachment_id)
                && ref_number_taken_by_other(
                old(self)@.attachments,
                attachment_id,
                reference_number@,
            ) ==> r == Err::<(), StoreError>(StoreError::DuplicateIdentifier) && final(self)@
                == old(self)@,
            reference_number@.len() > 0 && has_att(old(self)@.attachments, attachment_id)
                && !ref_number_taken_by_other(
                old(self)@.attachments,
                attachment_id,
                reference_number@,
            ) ==> r == Ok::<(), StoreError>(()) && final(self)@.attachments
                == spec_update_attachment(
                old(self)@.attachments,
                attachment_id,
                reference_number@,
                comment@,
            ),
    {
        if reference_number.as_str().unicode_len() == 0 {
            return Err(StoreError::EmptyRequiredField);
        }
        let k = match self.find_attachment(attachment_id) {
            None => {
                return Err(StoreError::NotFound);
            },
            Some(k) => k,
        };
        if self.reference_number_in_use_by_other(attachment_id, &reference_number) {
            return Err(StoreError::DuplicateIdentifier);
        }
        let old_row = self.attachments.remove(k);
        let row = AttachmentRow {
            attachment_id: old_row.attachment_id,
            reference_number,
            comment,
            date_added: old_row.date_added,
            document_id: old_row.document_id,
        };
        self.attachments.insert(k, row);
        proof {
            let updated = spec_update_attachment(
                old(self)@.attachments,
                attachment_id,
                reference_number@,
                comment@,
            );
            assert forall|i: int| 0 <= i < updated.len() implies final(self)@.attachments[i]
                == updated[i] by {
                if i != k {
                    assert(old(self)@.attachments[i].attachment_id != attachment_id);
                }
            }
            assert(final(self)@.attachments =~~= updated);
            let atts1 = old(self)@.attachments;
            let atts2 = final(self)@.attachments;
            assert forall|i: int| 0 <= i < atts2.len() implies has_doc(
                final(self)@.documents,
                (#[trigger] atts2[i]).document_id,
            ) by {
                assert(atts1[i].document_id == atts2[i].document_id);
                assert(has_doc(old(self)@.documents, atts1[i].document_id));
                let w = choose|w: int|
                    0 <= w < old(self)@.documents.len() && (
                    #[trigger] old(self)@.documents[w]).document_id == atts1[i].document_id;
                assert(final(self)@.documents[w].document_id == atts2[i].document_id);
            }
            assert forall|a: int, b: int| 0 <= a < b < atts2.len() implies (
            #[trigger] atts2[a]).attachment_id != (#[trigger] atts2[b]).attachment_id
                && atts2[a].reference_number != atts2[b].reference_number by {
                assert(atts2[a].attachment_id == atts1[a].attachment_id);
                assert(atts2[b].attachment_id == atts1[b].attachment_id);
                if atts1[a].attachment_id == attachment_id {
                    if atts2[b].reference_number == reference_number@ {
                        assert(ref_number_taken_by_other(atts1, attachment_id, reference_number@));
                    }
                } else if atts1[b].attachment_id == attachment_id {
                    if atts2[a].reference_number == reference_number@ {
                        assert(ref_number_taken_by_other(atts1, attachment_id, reference_number@));
                    }
                }
            }
            assert forall|a: int| 0 <= a < atts2.len() implies (#[trigger] atts2[a]).attachment_id
                < final(self)@.next_attachment_id by {
                assert(atts2[a].attachment_id == atts1[a].attachment_id);
            }
            lemma_docs_wf_transfer(old(self)@, final(self)@);
            lemma_pages_wf_ids_transfer(old(self)@, final(self)@);
            assert forall|i: int| 0 <= i < final(self)@.pages.len() implies has_att(
                atts2,
                (#[trigger] final(self)@.pages[i]).attachment_id,
            ) by {
                assert(final(self)@.pages[i] == old(self)@.pages[i]);
                assert(has_att(atts1, old(self)@.pages[i].attachment_id));
                let w = choose|w: int|
                    0 <= w < atts1.len() && (#[trigger] atts1[w]).attachment_id == old(
                        self,
                    )@.pages[i].attachment_id;
                assert(atts2[w].attachment_id == final(self)@.pages[i].attachment_id);
            }
        }
        Ok(())
    }

    /// Replaces the whole page set of one attachment in a single step:
    /// every page row of the attachment is dropped and one fresh row per
    /// supplied path is inserted, in the supplied order.  The prior set is
    /// never left half-replaced.
    pub fn replace_attachment_pages(&mut self, attachment_id: u32, new_paths: Vec<String>) -> (r:
        Result<(), StoreError>)
        requires
            store_wf(old(self)@),
        ensures
            store_wf(final(self)@),
            r matches Err(_) ==> final(self)@ == old(self)@,
            final(self)@.documents == old(self)@.documents,
            final(self)@.attachments == old(self)@.attachments,
            final(self)@.next_document_id == old(self)@.next_document_id,
            final(self)@.next_attachment_id == old(self)@.next_attachment_id,
            !has_att(old(self)@.attachments, attachment_id) ==> r == Err::<(), StoreError>(
                StoreError::NotFound,
            ) && final(self)@ == old(self)@,
            r matches Ok(u) ==> has_att(old(self)@.attachments, attachment_id) && final(self)@.pages
                == old(self)@.pages.filter(|p: PageModel| p.attachment_id != attachment_id)
                + spec_new_pages(
                new_paths@.map_values(|p: String| p@),
                old(self)@.next_page_id,
                attachment_id,
            ) && final(self)@.next_page_id == old(self)@.next_page_id + new_paths@.len(),
            has_att(old(self)@.attachments, attachment_id) && new_paths@.len() <= u32::MAX - old(
                self,
            )@.next_page_id ==> r matches Ok(_),
    {
        if self.find_attachment(attachment_id).is_none() {
            return Err(StoreError::NotFound);
        }
        if new_paths.len() as u64 > (u32::MAX - self.next_page_id) as u64 {
            return Err(StoreError::IdSpaceExhausted);
        }
        let ghost old_model = self@;
        let ghost page_pred = |p: PageModel| p.attachment_id != attachment_id;

        let mut kept_pages: Vec<PageRow> = Vec::new();
        let mut j: usize = 0;
        while j < self.pages.len()
            invariant
                j <= self.pages.len(),
                self@ == old_model,
                pages_view(kept_pages@) == old_model.pages.subrange(0, j as int).filter(page_pred),
            decreases self.pages.len() - j,
        {
            let ghost prefix = old_model.pages.subrange(0, j as int);
            let page = &self.pages[j];
            if page.attachment_id != attachment_id {
                kept_pages.push(
                    PageRow {
                        page_id: page.page_id,
                        file_path: page.file_path.clone(),
                        attachment_id: page.attachment_id,
                    },
                );
            }
            proof {
                assert(old_model.pages.subrange(0, j + 1) =~= prefix.push(
                    old_model.pages[j as int],
                ));
                lemma_filter_push(prefix, old_model.pages[j as int], page_pred);
                assert(pages_view(kept_pages@) =~~= old_model.pages.subrange(0, j + 1).filter(
                    page_pred,
                ));
            }
            j = j + 1;
        }
        proof {
            assert(old_model.pages.subrange(0, old_model.pages.len() as int) =~= old_model.pages);
        }
        self.pages = kept_pages;
        let ghost kept = old_model.pages.filter(page_pred);

        let first_page_id = self.next_page_id;
        let ghost path_views = new_paths@.map_values(|p: String| p@);
        let mut i: usize = 0;
        while i < new_paths.len()
            invariant
                i <= new_paths.len(),
                new_paths@.len() <= u32::MAX - first_page_id,
                self.next_page_id == first_page_id + i,
                self@.documents == old_model.documents,
                self@.attachments == old_model.attachments,
                self@.next_document_id == old_model.next_document_id,
                self@.next_attachment_id == old_model.next_attachment_id,
                path_views == new_paths@.map_values(|p: String| p@),
                path_views.len() == new_paths@.len(),
                pages_view(self.pages@) == kept + spec_new_pages(
                    path_views.subrange(0, i as int),
                    first_page_id,
                    attachment_id,
                ),
            decreases new_paths.len() - i,
        {
            let page_row = PageRow {
                page_id: self.next_page_id,
                file_path: new_paths[i].clone(),
                attachment_id,
            };
            self.pages.push(page_row);
            self.next_page_id = self.next_page_id + 1;
            proof {
                let ghost before = path_views.subrange(0, i as int);
                assert(path_views.subrange(0, i + 1) =~= before.push(path_views[i as int]));
                lemma_new_pages_push(before, path_views[i as int], first_page_id, attachment_id);
                assert(pages_view(self.pages@) =~~= (kept + spec_new_pages(
                    before,
                    first_page_id,
                    attachment_id,
                )).push(page_row@));
                Seq::push_distributes_over_add(
                    kept,
                    spec_new_pages(before, first_page_id, attachment_id),
                    page_row@,
                );
                assert(pages_view(self.pages@) == kept + spec_new_pages(
                    path_views.subrange(0, i + 1),
                    first_page_id,
                    attachment_id,
                ));
            }
            i = i + 1;
        }
        proof {
            assert(path_views.subrange(0, path_views.len() as int) =~= path_views);
            lemma_replace_pages_wf(old_model, final(self)@, attachment_id, first_page_id, path_views);
        }
        Ok(())
    }

    /// Removes one attachment row and all of its page rows in one step.
    pub fn delete_attachment(&mut self, attachment_id: u32) -> (r: Result<(), StoreError>)
        requires
            store_wf(old(self)@),
        ensures
            store_wf(final(self)@),
            r matches Err(_) ==> final(self)@ == old(self)@,
            final(self)@.documents == old(self)@.documents,
            final(self)@.next_document_id == old(self)@.next_document_id,
            final(self)@.next_attachment_id == old(self)@.next_attachment_id,
            final(self)@.next_page_id == old(self)@.next_page_id,
            !has_att(old(self)@.attachments, attachment_id) ==> r == Err::<(), StoreError>(
                StoreError::NotFound,
            ) && final(self)@ == old(self)@,
            has_att(old(self)@.attachments, attachment_id) ==> r == Ok::<(), StoreError>(())
                && final(self)@.attachments == old(self)@.attachments.filter(
                |a: AttModel| a.attachment_id != attachment_id,
            ) && final(self)@.pages == old(self)@.pages.filter(
                |p: PageModel| p.attachment_id != attachment_id,
            ),
    {
        if self.find_attachment(attachment_id).is_none() {
            return Err(StoreError::NotFound);
        }
        let ghost old_model = self@;
        let ghost att_pred = |a: AttModel| a.attachment_id != attachment_id;
        let ghost page_pred = |p: PageModel| p.attachment_id != attachment_id;

        let mut kept_atts: Vec<AttachmentRow> = Vec::new();
        let mut i: usize = 0;
        while i < self.attachments.len()
            invariant
                i <= self.attachments.len(),
                self@ == old_model,
                atts_view(kept_atts@) == old_model.attachments.subrange(0, i as int).filter(
                    att_pred,
                ),
            decreases self.attachments.len() - i,
        {
            let ghost prefix = old_model.attachments.subrange(0, i as int);
            let row = &self.attachments[i];
            if row.attachment_id != attachment_id {
                kept_atts.push(
                    AttachmentRow {
                        attachment_id: row.attachment_id,
                        reference_number: row.reference_number.clone(),
                        comment: row.comment.clone(),
                        date_added: row.date_added,
                        document_id: row.document_id,
                    },
                );
            }
            proof {
                assert(old_model.attachments.subrange(0, i + 1) =~= prefix.push(
                    old_model.attachments[i as int],
                ));
                lemma_filter_push(prefix, old_model.attachments[i as int], att_pred);
                assert(atts_view(kept_atts@) =~~= old_model.attachments.subrange(0, i + 1).filter(
                    att_pred,
                ));
            }
            i = i + 1;
        }

        let mut kept_pages: Vec<PageRow> = Vec::new();
        let mut j: usize = 0;
        while j < self.pages.len()
            invariant
                j <= self.pages.len(),
                self@ == old_model,
                pages_view(kept_pages@) == old_model.pages.subrange(0, j as int).filter(page_pred),
            decreases self.pages.len() - j,
        {
            let ghost prefix = old_model.pages.subrange(0, j as int);
            let page = &self.pages[j];
            if page.attachment_id != attachment_id {
                kept_pages.push(
                    PageRow {
                        page_id: page.page_id,
                        file_path: page.file_path.clone(),
                        attachment_id: page.attachment_id,
                    },
                );
            }
            proof {
                assert(old_model.pages.subrange(0, j + 1) =~= prefix.push(
                    old_model.pages[j as int],
                ));
                lemma_filter_push(prefix, old_model.pages[j as int], page_pred);
                assert(pages_view(kept_pages@) =~~= old_model.pages.subrange(0, j + 1).filter(
                    page_pred,
                ));
            }
            j = j + 1;
        }
        proof {
            assert(old_model.attachments.subrange(0, old_model.attachments.len() as int)
                =~= old_model.attachments);
            assert(old_model.pages.subrange(0, old_model.pages.len() as int) =~= old_model.pages);
        }
        self.attachments = kept_atts;
        self.pages = kept_pages;
        proof {
            lemma_delete_attachment_wf(old_model, attachment_id, final(self)@);
        }
        Ok(())
    }
}

fn vec_has_attachment(atts: &Vec<AttachmentRow>, id: u32) -> (b: bool)
    ensures
        b == has_att(atts_view(atts@), id),
{
    let mut i: usize = 0;
    while i < atts.len()
        invariant
            i <= atts.len(),
            forall|k: int| 0 <= k < i ==> (#[trigger] atts_view(atts@)[k]).attachment_id != id,
        decreases atts.len() - i,
    {
        if atts[i].attachment_id == id {
            proof {
                assert(atts_view(atts@)[i as int].attachment_id == id);
            }
            return true;
        }
        i = i + 1;
    }
    false
}

proof fn lemma_atts_pages_wf_transfer(m1: StoreModel, m2: StoreModel)
    requires
        store_wf(m1),
        m2.attachments == m1.attachments,
        m2.pages == m1.pages,
        m2.next_attachment_id == m1.next_attachment_id,
        m2.next_page_id == m1.next_page_id,
    ensures
        forall|i: int, j: int|
            0 <= i < j < m2.attachments.len() ==> (#[trigger] m2.attachments[i]).attachment_id != (
            #[trigger] m2.attachments[j]).attachment_id && m2.attachments[i].reference_number
                != m2.attachments[j].reference_number,
        forall|i: int|
            0 <= i < m2.attachments.len() ==> (#[trigger] m2.attachments[i]).attachment_id
                < m2.next_attachment_id,
        forall|i: int, j: int|
            0 <= i < j < m2.pages.len() ==> (#[trigger] m2.pages[i]).page_id != (
            #[trigger] m2.pages[j]).page_id,
        forall|i: int| 0 <= i < m2.pages.len() ==> (#[trigger] m2.pages[i]).page_id
            < m2.next_page_id,
        forall|i: int|
            0 <= i < m2.pages.len() ==> has_att(
                m2.attachments,
                (#[trigger] m2.pages[i]).attachment_id,
            ),
{
    assert forall|i: int, j: int| 0 <= i < j < m2.attachments.len() implies (
    #[trigger] m2.attachments[i]).attachment_id != (
    #[trigger] m2.attachments[j]).attachment_id && m2.attachments[i].reference_number
        != m2.attachments[j].reference_number by {
        assert(m2.attachments[i] == m1.attachments[i]);
        assert(m2.attachments[j] == m1.attachments[j]);
    }
    assert forall|i: int| 0 <= i < m2.attachments.len() implies (
    #[trigger] m2.attachments[i]).attachment_id < m2.next_attachment_id by {
        assert(m2.attachments[i] == m1.attachments[i]);
    }
    assert forall|i: int, j: int| 0 <= i < j < m2.pages.len() implies (
    #[trigger] m2.pages[i]).page_id != (#[trigger] m2.pages[j]).page_id by {
        assert(m2.pages[i] == m1.pages[i]);
        assert(m2.pages[j] == m1.pages[j]);
    }
    assert forall|i: int| 0 <= i < m2.pages.len() implies (#[trigger] m2.pages[i]).page_id
        < m2.next_page_id by {
        assert(m2.pages[i] == m1.pages[i]);
    }
    assert forall|i: int| 0 <= i < m2.pages.len() implies has_att(
        m2.attachments,
        (#[trigger] m2.pages[i]).attachment_id,
    ) by {
        assert(m2.pages[i] == m1.pages[i]);
        assert(has_att(m1.attachments, m1.pages[i].attachment_id));
        let w = choose|w: int|
            0 <= w < m1.attachments.len() && (#[trigger] m1.attachments[w]).attachment_id
                == m1.pages[i].attachment_id;
        assert(m2.attachments[w].attachment_id == m2.pages[i].attachment_id);
    }
}

proof fn lemma_docs_wf_transfer(m1: StoreModel, m2: StoreModel)
    requires
        store_wf(m1),
        m2.documents == m1.documents,
        m2.next_document_id == m1.next_document_id,
    ensures
        forall|i: int, j: int|
            0 <= i < j < m2.documents.len() ==> (#[trigger] m2.documents[i]).document_id != (
            #[trigger] m2.documents[j]).document_id && m2.documents[i].document_number
                != m2.documents[j].document_number,
        forall|i: int|
            0 <= i < m2.documents.len() ==> (#[trigger] m2.documents[i]).document_id
                < m2.next_document_id,
{
    assert forall|i: int, j: int| 0 <= i < j < m2.documents.len() implies (
    #[trigger] m2.documents[i]).document_id != (#[trigger] m2.documents[j]).document_id
        && m2.documents[i].document_number != m2.documents[j].document_number by {
        assert(m2.documents[i] == m1.documents[i]);
        assert(m2.documents[j] == m1.documents[j]);
    }
    assert forall|i: int| 0 <= i < m2.documents.len() implies (
    #[trigger] m2.documents[i]).document_id < m2.next_document_id by {
        assert(m2.documents[i] == m1.documents[i]);
    }
}

proof fn lemma_pages_wf_ids_transfer(m1: StoreModel, m2: StoreModel)
    requires
        store_wf(m1),
        m2.pages == m1.pages,
        m2.next_page_id == m1.next_page_id,
    ensures
        forall|i: int, j: int|
            0 <= i < j < m2.pages.len() ==> (#[trigger] m2.pages[i]).page_id != (
            #[trigger] m2.pages[j]).page_id,
        forall|i: int| 0 <= i < m2.pages.len() ==> (#[trigger] m2.pages[i]).page_id
            < m2.next_page_id,
{
    assert forall|i: int, j: int| 0 <= i < j < m2.pages.len() implies (
    #[trigger] m2.pages[i]).page_id != (#[trigger] m2.pages[j]).page_id by {
        assert(m2.pages[i] == m1.pages[i]);
        assert(m2.pages[j] == m1.pages[j]);
    }
    assert forall|i: int| 0 <= i < m2.pages.len() implies (#[trigger] m2.pages[i]).page_id
        < m2.next_page_id by {
        assert(m2.pages[i] == m1.pages[i]);
    }
}

proof fn lemma_new_pages_push(paths: Seq<Seq<char>>, p: Seq<char>, first_id: u32, att_id: u32)
    requires
        first_id + paths.len() <= u32::MAX,
    ensures
        spec_new_pages(paths.push(p), first_id, att_id) == spec_new_pages(
            paths,
            first_id,
            att_id,
        ).push(
            (PageModel {
                page_id: (first_id + paths.len()) as u32,
                file_path: p,
                attachment_id: att_id,
            }),
        ),
{
    assert(spec_new_pages(paths.push(p), first_id, att_id) =~~= spec_new_pages(
        paths,
        first_id,
        att_id,
    ).push(
        (PageModel {
            page_id: (first_id + paths.len()) as u32,
            file_path: p,
            attachment_id: att_id,
        }),
    ));
}

proof fn lemma_cascade_delete_document_wf(m: StoreModel, document_id: u32, after: StoreModel)
    requires
        store_wf(m),
        after.documents == m.documents.filter(|d: DocModel| d.document_id != document_id),
        after.attachments == m.attachments.filter(|a: AttModel| a.document_id != document_id),
        after.pages == m.pages.filter(
            |p: PageModel|
                has_att(
                    m.attachments.filter(|a: AttModel| a.document_id != document_id),
                    p.attachment_id,
                ),
        ),
        after.next_document_id == m.next_document_id,
        after.next_attachment_id == m.next_attachment_id,
        after.next_page_id == m.next_page_id,
    ensures
        store_wf(after),
{
    let doc_pred = |d: DocModel| d.document_id != document_id;
    let att_pred = |a: AttModel| a.document_id != document_id;
    let atts_after = m.attachments.filter(att_pred);
    let page_pred = |p: PageModel| has_att(atts_after, p.attachment_id);

    lemma_filter_preserves_pairwise(
        m.documents,
        doc_pred,
        |x: DocModel, y: DocModel| x.document_id != y.document_id && x.document_number
            != y.document_number,
    );
    lemma_filter_preserves_pairwise(
        m.attachments,
        att_pred,
        |x: AttModel, y: AttModel| x.attachment_id != y.attachment_id && x.reference_number
            != y.reference_number,
    );
    lemma_filter_preserves_pairwise(
        m.pages,
        page_pred,
        |x: PageModel, y: PageModel| x.page_id != y.page_id,
    );
    lemma_filter_elements(m.documents, doc_pred);
    lemma_filter_elements(m.attachments, att_pred);
    lemma_filter_elements(m.pages, page_pred);

    assert forall|i: int| 0 <= i < after.documents.len() implies (
    #[trigger] after.documents[i]).document_id < after.next_document_id by {
        let k = choose|k: int| 0 <= k < m.documents.len() && m.documents[k] == after.documents[i];
        assert(m.documents[k].document_id < m.next_document_id);
    }
    assert forall|i: int| 0 <= i < after.attachments.len() implies (
    #[trigger] after.attachments[i]).attachment_id < after.next_attachment_id by {
        let k = choose|k: int|
            0 <= k < m.attachments.len() && m.attachments[k] == after.attachments[i];
        assert(m.attachments[k].attachment_id < m.next_attachment_id);
    }
    assert forall|i: int| 0 <= i < after.pages.len() implies (#[trigger] after.pages[i]).page_id
        < after.next_page_id by {
        let k = choose|k: int| 0 <= k < m.pages.len() && m.pages[k] == after.pages[i];
        assert(m.pages[k].page_id < m.next_page_id);
    }

    // Foreign keys: every kept attachment points at a kept document.
    assert forall|i: int| 0 <= i < after.attachments.len() implies has_doc(
        after.documents,
        (#[trigger] after.attachments[i]).document_id,
    ) by {
        let a = after.attachments[i];
        assert(m.attachments.contains(a));
        assert(att_pred(a));
        let k = choose|k: int|
            0 <= k < m.documents.len() && (#[trigger] m.documents[k]).document_id == a.document_id;
        m.documents.lemma_filter_contains(doc_pred, k);
        assert(after.documents.contains(m.documents[k]));
        let l = choose|l: int|
            0 <= l < after.documents.len() && after.documents[l] == m.documents[k];
        assert((after.documents[l]).document_id == a.document_id);
    }

    // Every kept page points at a kept attachment, by choice of the page
    // filter itself.
    assert forall|i: int| 0 <= i < after.pages.len() implies has_att(
        after.attachments,
        (#[trigger] after.pages[i]).attachment_id,
    ) by {
        m.pages.lemma_filter_pred(page_pred, i);
    }
}

proof fn lemma_delete_attachment_wf(m: StoreModel, attachment_id: u32, after: StoreModel)
    requires
        store_wf(m),
        after.documents == m.documents,
        after.attachments == m.attachments.filter(
            |a: AttModel| a.attachment_id != attachment_id,
        ),
        after.pages == m.pages.filter(|p: PageModel| p.attachment_id != attachment_id),
        after.next_document_id == m.next_document_id,
        after.next_attachment_id == m.next_attachment_id,
        after.next_page_id == m.next_page_id,
    ensures
        store_wf(after),
{
    let att_pred = |a: AttModel| a.attachment_id != attachment_id;
    let page_pred = |p: PageModel| p.attachment_id != attachment_id;
    lemma_filter_preserves_pairwise(
        m.attachments,
        att_pred,
        |x: AttModel, y: AttModel| x.attachment_id != y.attachment_id && x.reference_number
            != y.reference_number,
    );
    lemma_filter_preserves_pairwise(
        m.pages,
        page_pred,
        |x: PageModel, y: PageModel| x.page_id != y.page_id,
    );
    lemma_filter_elements(m.attachments, att_pred);
    lemma_filter_elements(m.pages, page_pred);

    assert forall|i: int| 0 <= i < after.attachments.len() implies (
    #[trigger] after.attachments[i]).attachment_id < after.next_attachment_id && has_doc(
        after.documents,
        after.attachments[i].document_id,
    ) by {
        let k = choose|k: int|
            0 <= k < m.attachments.len() && m.attachments[k] == after.attachments[i];
        assert(m.attachments[k].attachment_id < m.next_attachment_id);
        assert(has_doc(m.documents, m.attachments[k].document_id));
    }
    assert forall|i: int| 0 <= i < after.pages.len() implies (#[trigger] after.pages[i]).page_id
        < after.next_page_id && has_att(after.attachments, after.pages[i].attachment_id) by {
        let k = choose|k: int| 0 <= k < m.pages.len() && m.pages[k] == after.pages[i];
        assert(m.pages[k].page_id < m.next_page_id);
        m.pages.lemma_filter_pred(page_pred, i);
        let p = after.pages[i];
        let l = choose|l: int|
            0 <= l < m.attachments.len() && (#[trigger] m.attachments[l]).attachment_id
                == p.attachment_id;
        m.attachments.lemma_filter_contains(att_pred, l);
        assert(after.attachments.contains(m.attachments[l]));
        let w = choose|w: int|
            0 <= w < after.attachments.len() && after.attachments[w] == m.attachments[l];
        assert(after.attachments[w].attachment_id == p.attachment_id);
    }
}

proof fn lemma_create_attachment_wf(
    m: StoreModel,
    after: StoreModel,
    att_id: u32,
    first_page_id: u32,
    paths: Seq<Seq<char>>,
)
    requires
        store_wf(m),
        att_id == m.next_attachment_id,
        att_id < u32::MAX,
        first_page_id == m.next_page_id,
        paths.len() <= u32::MAX - first_page_id,
        after.documents == m.documents,
        after.attachments.len() == m.attachments.len() + 1,
        forall|i: int|
            0 <= i < m.attachments.len() ==> after.attachments[i] == #[trigger] m.attachments[i],
        after.attachments.last().attachment_id == att_id,
        !ref_number_taken(m.attachments, after.attachments.last().reference_number),
        has_doc(m.documents, after.attachments.last().document_id),
        after.pages == m.pages + spec_new_pages(paths, first_page_id, att_id),
        after.next_document_id == m.next_document_id,
        after.next_attachment_id == att_id + 1,
        after.next_page_id == first_page_id + paths.len(),
    ensures
        store_wf(after),
{
    let fresh = spec_new_pages(paths, first_page_id, att_id);
    lemma_docs_wf_transfer(m, after);
    assert forall|i: int| 0 <= i < after.attachments.len() implies (
    #[trigger] after.attachments[i]).attachment_id < after.next_attachment_id by {
        if i < m.attachments.len() {
            assert(after.attachments[i] == m.attachments[i]);
            assert(m.attachments[i].attachment_id < m.next_attachment_id);
        }
    }
    assert forall|i: int, j: int| 0 <= i < j < after.attachments.len() implies (
    #[trigger] after.attachments[i]).attachment_id != (
    #[trigger] after.attachments[j]).attachment_id && after.attachments[i].reference_number
        != after.attachments[j].reference_number by {
        if j == after.attachments.len() - 1 {
            assert(after.attachments[i] == m.attachments[i]);
            assert(m.attachments[i].attachment_id < m.next_attachment_id);
            if after.attachments[i].reference_number == after.attachments[j].reference_number {
                assert((m.attachments[i]).reference_number
                    == after.attachments[j].reference_number);
                assert(ref_number_taken(m.attachments, after.attachments[j].reference_number));
            }
        } else {
            assert(after.attachments[i] == m.attachments[i]);
            assert(after.attachments[j] == m.attachments[j]);
        }
    }
    assert forall|i: int, j: int| 0 <= i < j < after.pages.len() implies (
    #[trigger] after.pages[i]).page_id != (#[trigger] after.pages[j]).page_id by {
        if i < m.pages.len() && j >= m.pages.len() {
            assert(m.pages[i].page_id < m.next_page_id);
            assert(after.pages[j].page_id == first_page_id + (j - m.pages.len()));
        }
        if i >= m.pages.len() {
            assert(after.pages[i].page_id == first_page_id + (i - m.pages.len()));
            assert(after.pages[j].page_id == first_page_id + (j - m.pages.len()));
        }
    }
    assert forall|i: int| 0 <= i < after.pages.len() implies (#[trigger] after.pages[i]).page_id
        < after.next_page_id by {
        if i >= m.pages.len() {
            assert(after.pages[i].page_id == first_page_id + (i - m.pages.len()));
        } else {
            assert(m.pages[i].page_id < m.next_page_id);
        }
    }
    assert forall|i: int| 0 <= i < after.attachments.len() implies has_doc(
        after.documents,
        (#[trigger] after.attachments[i]).document_id,
    ) by {
        if i < m.attachments.len() {
            assert(after.attachments[i] == m.attachments[i]);
            assert(has_doc(m.documents, m.attachments[i].document_id));
        } else {
            assert(after.attachments[i] == after.attachments.last());
            assert(has_doc(m.documents, after.attachments[i].document_id));
        }
        let w = choose|w: int|
            0 <= w < m.documents.len() && (#[trigger] m.documents[w]).document_id
                == after.attachments[i].document_id;
        assert(after.documents[w].document_id == after.attachments[i].document_id);
    }
    assert forall|i: int| 0 <= i < after.pages.len() implies has_att(
        after.attachments,
        (#[trigger] after.pages[i]).attachment_id,
    ) by {
        if i >= m.pages.len() {
            assert(after.pages[i].attachment_id == att_id);
            assert(after.attachments[after.attachments.len() - 1].attachment_id == att_id);
        } else {
            assert(has_att(m.attachments, m.pages[i].attachment_id));
            let k = choose|k: int|
                0 <= k < m.attachments.len() && (#[trigger] m.attachments[k]).attachment_id
                    == m.pages[i].attachment_id;
            assert(after.attachments[k].attachment_id == after.pages[i].attachment_id);
        }
    }
}

proof fn lemma_replace_pages_wf(
    m: StoreModel,
    after: StoreModel,
    attachment_id: u32,
    first_page_id: u32,
    paths: Seq<Seq<char>>,
)
    requires
        store_wf(m),
        has_att(m.attachments, attachment_id),
        first_page_id == m.next_page_id,
        paths.len() <= u32::MAX - first_page_id,
        after.documents == m.documents,
        after.attachments == m.attachments,
        after.pages == m.pages.filter(|p: PageModel| p.attachment_id != attachment_id)
            + spec_new_pages(paths, first_page_id, attachment_id),
        after.next_document_id == m.next_document_id,
        after.next_attachment_id == m.next_attachment_id,
        after.next_page_id == first_page_id + paths.len(),
    ensures
        store_wf(after),
{
    let page_pred = |p: PageModel| p.attachment_id != attachment_id;
    let kept = m.pages.filter(page_pred);
    lemma_filter_preserves_pairwise(
        m.pages,
        page_pred,
        |x: PageModel, y: PageModel| x.page_id != y.page_id,
    );
    lemma_filter_elements(m.pages, page_pred);
    assert forall|i: int, j: int| 0 <= i < j < after.pages.len() implies (
    #[trigger] after.pages[i]).page_id != (#[trigger] after.pages[j]).page_id by {
        if i < kept.len() && j >= kept.len() {
            let k = choose|k: int| 0 <= k < m.pages.len() && m.pages[k] == kept[i];
            assert(m.pages[k].page_id < m.next_page_id);
            assert(after.pages[j].page_id == first_page_id + (j - kept.len()));
        }
        if i >= kept.len() {
            assert(after.pages[i].page_id == first_page_id + (i - kept.len()));
            assert(after.pages[j].page_id == first_page_id + (j - kept.len()));
        }
    }
    assert forall|i: int| 0 <= i < after.pages.len() implies (#[trigger] after.pages[i]).page_id
        < after.next_page_id by {
        if i < kept.len() {
            let k = choose|k: int| 0 <= k < m.pages.len() && m.pages[k] == kept[i];
            assert(m.pages[k].page_id < m.next_page_id);
        } else {
            assert(after.pages[i].page_id == first_page_id + (i - kept.len()));
        }
    }
    assert forall|i: int| 0 <= i < after.pages.len() implies has_att(
        after.attachments,
        (#[trigger] after.pages[i]).attachment_id,
    ) by {
        if i < kept.len() {
            let k = choose|k: int| 0 <= k < m.pages.len() && m.pages[k] == kept[i];
            assert(has_att(m.attachments, m.pages[k].attachment_id));
        }
    }
}

} // verus!
