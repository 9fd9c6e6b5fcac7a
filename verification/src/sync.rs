//! The attachment synchronizer: the commit protocols that keep the
//! relational rows and the on-disk page files in agreement through
//! creation, detail-only edits, full page-set replacement and deletion.
//!
//! Each commit mutates the metadata store and the filesystem model in the
//! order the protocol fixes (rows first on create; row update, then file
//! moves, then row replacement on edits), and its contract pins both
//! final states.  Everything that can be refused — a missing row, a
//! duplicate identifier, an unusable name — is refused before either
//! resource is touched.

use vstd::prelude::*;

use crate::seq_facts::lemma_filter_all;
use crate::seq_facts::lemma_filter_implied;
use crate::seq_facts::lemma_filter_none;

use crate::codec::compress_storage;
use crate::codec::normalize_to_storage_format;
use crate::fs_state::FsState;
use crate::fs_state::clone_bytes;
use crate::fs_state::lemma_rename_file_effect;
use crate::fs_state::lemma_write_file_effect;
use crate::fs_state::spec_create_dir;
use crate::fs_state::lemma_create_dir_effect;
use crate::fs_state::file_bytes;
use crate::fs_state::fs_wf;
use crate::fs_state::has_dir;
use crate::fs_state::has_file;
use crate::fs_state::lemma_remove_dir_dirs_effect;
use crate::fs_state::lemma_remove_dir_effect;
use crate::fs_state::under_dir;
use crate::codec::stored_page_ok;
use crate::ingest::bufs_view;
use crate::page_path::attachment_dir;
use crate::page_path::is_valid_name;
use crate::page_path::lemma_page_path_injective_in_index;
use crate::page_path::lemma_page_path_under_att_dir;
use crate::page_path::lemma_ref_separation;
use crate::page_path::lemma_doc_separation;
use crate::page_path::lemma_doc_dirs_disjoint;
use crate::page_path::lemma_paths_under_doc_dir;
use crate::page_path::page_file_path;
use crate::page_path::spec_page_path;
use crate::page_path::valid_name;
use crate::page_path::document_dir;
use crate::page_path::spec_attachment_dir;
use crate::page_path::spec_document_dir;
use crate::store::AttModel;
use crate::store::DocModel;
use crate::store::MetaStore;
use crate::store::PageModel;
use crate::store::StoreError;
use crate::store::StoreModel;
use crate::store::doc_number_taken;
use crate::store::ref_number_taken;
use crate::store::spec_new_pages;
use crate::store::spec_update_attachment;
use crate::store::spec_update_document;
use crate::store::doc_number_taken_by_other;
use crate::store::ref_number_taken_by_other;
use crate::store::has_att;
use crate::store::has_doc;
use crate::store::store_wf;

verus! {

/// How a synchronizer commit can fail.
#[derive(Clone, Copy, Debug, PartialEq, Eq, Structural)]
pub enum SyncError {
    /// The metadata store refused the write.
    Store(StoreError),
    /// A name that becomes a path component is empty or holds a
    /// separator.
    InvalidName,
}

/// The states an attachment-edit session passes through.  Once the page
/// set has changed the session never returns to a details-only commit,
/// even if the details revert.
#[derive(Clone, Copy, Debug, PartialEq, Eq, Structural)]
pub enum EditState {
    Viewing,
    EditingDetails,
    EditingPages,
}

/// One attachment-edit session; the state decides which commit path a
/// save takes.
pub struct EditSession {
    pub state: EditState,
}

impl EditSession {
    /// A session with no pending edits.
    pub fn new() -> (s: EditSession)
        ensures
            s.state == EditState::Viewing,
    {
        EditSession { state: EditState::Viewing }
    }

    /// A detail field changed.  This never downgrades a session that
    /// already saw a page change.
    pub fn note_details_changed(&mut self)
        ensures
            final(self).state == (if old(self).state == EditState::EditingPages {
                EditState::EditingPages
            } else {
                EditState::EditingDetails
            }),
    {
        if !(self.state == EditState::EditingPages) {
            self.state = EditState::EditingDetails;
        }
    }

    /// The page byte set changed — a one-way transition.
    pub fn note_pages_changed(&mut self)
        ensures
            final(self).state == EditState::EditingPages,
    {
        self.state = EditState::EditingPages;
    }
}

/// The page rows that belong to one attachment, in row order.
pub open spec fn pages_of(pages: Seq<PageModel>, att_id: u32) -> Seq<PageModel> {
    pages.filter(|p: PageModel| p.attachment_id == att_id)
}

/// Unfolds `pages_of` over one appended row.
pub proof fn lemma_pages_of_push(pages: Seq<PageModel>, x: PageModel, att_id: u32)
    ensures
        pages_of(pages.push(x), att_id) == if x.attachment_id == att_id {
            pages_of(pages, att_id).push(x)
        } else {
            pages_of(pages, att_id)
        },
{
    reveal(Seq::filter);
    assert(pages.push(x).drop_last() =~= pages);
    assert(pages.push(x).last() == x);
}

pub open spec fn att_index_of(atts: Seq<AttModel>, id: u32) -> int {
    choose|i: int| 0 <= i < atts.len() && (#[trigger] atts[i]).attachment_id == id
}

/// The attachment row carrying `id` (meaningful under `has_att` and
/// well-formedness).
pub open spec fn att_of(atts: Seq<AttModel>, id: u32) -> AttModel {
    atts[att_index_of(atts, id)]
}

pub open spec fn doc_index_of(docs: Seq<DocModel>, id: u32) -> int {
    choose|i: int| 0 <= i < docs.len() && (#[trigger] docs[i]).document_id == id
}

/// The document row carrying `id` (meaningful under `has_doc` and
/// well-formedness).
pub open spec fn doc_of(docs: Seq<DocModel>, id: u32) -> DocModel {
    docs[doc_index_of(docs, id)]
}

/// The on-disk directory of the attachment carrying `id`.
pub open spec fn spec_att_dir_in(m: StoreModel, att_id: u32) -> Seq<char> {
    spec_attachment_dir(
        doc_of(m.documents, att_of(m.attachments, att_id).document_id).document_number,
        att_of(m.attachments, att_id).reference_number,
    )
}

fn attachment_info(store: &MetaStore, attachment_id: u32) -> (r: Option<(String, u32)>)
    requires
        store_wf(store@),
    ensures
        match r {
            Some(info) => has_att(store@.attachments, attachment_id) && info.0@ == att_of(
                store@.attachments,
                attachment_id,
            ).reference_number && info.1 == att_of(
                store@.attachments,
                attachment_id,
            ).document_id,
            None => !has_att(store@.attachments, attachment_id),
        },
{
    let mut i: usize = 0;
    while i < store.attachments.len()
        invariant
            i <= store.attachments.len(),
            forall|k: int|
                0 <= k < i ==> (#[trigger] store@.attachments[k]).attachment_id != attachment_id,
        decreases store.attachments.len() - i,
    {
        let row = &store.attachments[i];
        if row.attachment_id == attachment_id {
            proof {
                assert(store@.attachments[i as int].attachment_id == attachment_id);
                assert(has_att(store@.attachments, attachment_id));
                let w = att_index_of(store@.attachments, attachment_id);
                if w != i {
                    assert(store@.attachments[w].attachment_id != store@.attachments[
                        i as int
                    ].attachment_id);
                }
            }
            return Some((row.reference_number.clone(), row.document_id));
        }
        i = i + 1;
    }
    None
}

fn document_number_of(store: &MetaStore, document_id: u32) -> (r: Option<String>)
    requires
        store_wf(store@),
    ensures
        match r {
            Some(n) => has_doc(store@.documents, document_id) && n@ == doc_of(
                store@.documents,
                document_id,
            ).document_number,
            None => !has_doc(store@.documents, document_id),
        },
{
    let mut i: usize = 0;
    while i < store.documents.len()
        invariant
            i <= store.documents.len(),
            forall|k: int|
                0 <= k < i ==> (#[trigger] store@.documents[k]).document_id != document_id,
        decreases store.documents.len() - i,
    {
        let row = &store.documents[i];
        if row.document_id == document_id {
            proof {
                assert(store@.documents[i as int].document_id == document_id);
                assert(has_doc(store@.documents, document_id));
                let w = doc_index_of(store@.documents, document_id);
                if w != i {
                    assert(store@.documents[w].document_id != store@.documents[
                        i as int
                    ].document_id);
                }
            }
            return Some(row.document_number.clone());
        }
        i = i + 1;
    }
    None
}

fn count_pages(store: &MetaStore, attachment_id: u32) -> (n: usize)
    ensures
        n == pages_of(store@.pages, attachment_id).len(),
{
    let mut n: usize = 0;
    let mut i: usize = 0;
    while i < store.pages.len()
        invariant
            i <= store.pages.len(),
            n <= i,
            n == pages_of(store@.pages.subrange(0, i as int), attachment_id).len(),
        decreases store.pages.len() - i,
    {
        let ghost prefix = store@.pages.subrange(0, i as int);
        if store.pages[i].attachment_id == attachment_id {
            n = n + 1;
        }
        proof {
            assert(store@.pages.subrange(0, i + 1) =~= prefix.push(store@.pages[i as int]));
            lemma_pages_of_push(prefix, store@.pages[i as int], attachment_id);
        }
        i = i + 1;
    }
    proof {
        assert(store@.pages.subrange(0, store@.pages.len() as int) =~= store@.pages);
    }
    n
}

/// Deletes one attachment: its row and page rows leave the store in one
/// cascading step, and its directory and everything below it leave the
/// filesystem.
pub fn delete_attachment_commit(
    store: &mut MetaStore,
    fs: &mut FsState,
    attachment_id: u32,
) -> (r: Result<(), SyncError>)
    requires
        store_wf(old(store)@),
        fs_wf(old(fs)@),
    ensures
        store_wf(final(store)@),
        fs_wf(final(fs)@),
        !has_att(old(store)@.attachments, attachment_id) ==> r == Err::<(), SyncError>(
            SyncError::Store(StoreError::NotFound),
        ) && final(store)@ == old(store)@ && final(fs)@ == old(fs)@,
        has_att(old(store)@.attachments, attachment_id) ==> r == Ok::<(), SyncError>(()) && final(store)@.documents == old(store)@.documents && final(store)@.attachments == old(store)@.attachments.filter(|a: AttModel| a.attachment_id != attachment_id) && final(store)@.pages == old(store)@.pages.filter(
            |p: PageModel| p.attachment_id != attachment_id,
        ) && !has_dir(final(fs)@.dirs, spec_att_dir_in(old(store)@, attachment_id)) && (forall|
            q: Seq<char>,
        |
            under_dir(spec_att_dir_in(old(store)@, attachment_id), q) ==> !#[trigger] has_file(
                final(fs)@.files,
                q,
            )) && (forall|q: Seq<char>|
            !under_dir(spec_att_dir_in(old(store)@, attachment_id), q) ==> #[trigger] has_file(
                final(fs)@.files,
                q,
            ) == has_file(old(fs)@.files, q)) && (forall|q: Seq<char>|
            !under_dir(spec_att_dir_in(old(store)@, attachment_id), q) && has_file(
                old(fs)@.files,
                q,
            ) ==> #[trigger] file_bytes(final(fs)@.files, q) == file_bytes(old(fs)@.files, q)) && (
        forall|x: Seq<char>|
            x != spec_att_dir_in(old(store)@, attachment_id) && !under_dir(
                spec_att_dir_in(old(store)@, attachment_id),
                x,
            ) ==> #[trigger] has_dir(final(fs)@.dirs, x) == has_dir(old(fs)@.dirs, x)),
{
    let info = match attachment_info(store, attachment_id) {
        None => {
            return Err(SyncError::Store(StoreError::NotFound));
        },
        Some(info) => info,
    };
    let doc_number = match document_number_of(store, info.1) {
        None => {
            proof {
                let w = att_index_of(old(store)@.attachments, attachment_id);
                assert(has_doc(old(store)@.documents, old(store)@.attachments[w].document_id));
                assert(false);
            }
            return Err(SyncError::Store(StoreError::NotFound));
        },
        Some(n) => n,
    };
    let dir = attachment_dir(doc_number.as_str(), info.0.as_str());
    let res = store.delete_attachment(attachment_id);
    proof {
        assert(res is Ok);
    }
    fs.remove_dir_all(&dir);
    proof {
        lemma_remove_dir_effect(old(fs)@.files, dir@);
        lemma_remove_dir_dirs_effect(old(fs)@.dirs, dir@);
    }
    Ok(())
}

/// Deletes one document: the row, every owned attachment row and page
/// row leave the store in one cascading step, and the document's root
/// directory with everything below it leaves the filesystem.
pub fn delete_document_commit(store: &mut MetaStore, fs: &mut FsState, document_id: u32) -> (r:
    Result<(), SyncError>)
    requires
        store_wf(old(store)@),
        fs_wf(old(fs)@),
    ensures
        store_wf(final(store)@),
        fs_wf(final(fs)@),
        !has_doc(old(store)@.documents, document_id) ==> r == Err::<(), SyncError>(
            SyncError::Store(StoreError::NotFound),
        ) && final(store)@ == old(store)@ && final(fs)@ == old(fs)@,
        has_doc(old(store)@.documents, document_id) ==> r == Ok::<(), SyncError>(()) && final(store)@.documents == old(store)@.documents.filter(
            |d: DocModel| d.document_id != document_id,
        ) && final(store)@.attachments == old(store)@.attachments.filter(
            |a: AttModel| a.document_id != document_id,
        ) && final(store)@.pages == old(store)@.pages.filter(
            |p: PageModel|
                has_att(
                    old(store)@.attachments.filter(|a: AttModel| a.document_id != document_id),
                    p.attachment_id,
                ),
        ) && !has_dir(
            final(fs)@.dirs,
            spec_document_dir(doc_of(old(store)@.documents, document_id).document_number),
        ) && (forall|q: Seq<char>|
            under_dir(
                spec_document_dir(doc_of(old(store)@.documents, document_id).document_number),
                q,
            ) ==> !#[trigger] has_file(final(fs)@.files, q)) && (forall|q: Seq<char>|
            !under_dir(
                spec_document_dir(doc_of(old(store)@.documents, document_id).document_number),
                q,
            ) ==> #[trigger] has_file(final(fs)@.files, q) == has_file(old(fs)@.files, q)) && (
        forall|q: Seq<char>|
            !under_dir(
                spec_document_dir(doc_of(old(store)@.documents, document_id).document_number),
                q,
            ) && has_file(old(fs)@.files, q) ==> #[trigger] file_bytes(final(fs)@.files, q)
                == file_bytes(old(fs)@.files, q)) && (forall|x: Seq<char>|
            x != spec_document_dir(doc_of(old(store)@.documents, document_id).document_number)
                && !under_dir(
                spec_document_dir(doc_of(old(store)@.documents, document_id).document_number),
                x,
            ) ==> #[trigger] has_dir(final(fs)@.dirs, x) == has_dir(old(fs)@.dirs, x)),
{
    let doc_number = match document_number_of(store, document_id) {
        None => {
            return Err(SyncError::Store(StoreError::NotFound));
        },
        Some(n) => n,
    };
    let dir = document_dir(doc_number.as_str());
    let res = store.delete_document(document_id);
    proof {
        assert(res is Ok);
    }
    fs.remove_dir_all(&dir);
    proof {
        lemma_remove_dir_effect(old(fs)@.files, dir@);
        lemma_remove_dir_dirs_effect(old(fs)@.dirs, dir@);
    }
    Ok(())
}


/// The canonical page paths of an attachment with `n` pages, indices
/// 1 through `n`.
pub open spec fn canonical_paths(doc: Seq<char>, refn: Seq<char>, n: int) -> Seq<Seq<char>> {
    Seq::new(n as nat, |i: int| spec_page_path(doc, refn, (i + 1) as u32))
}

/// `q` is one of the canonical page paths with index 1 through `n`.
pub open spec fn is_canon_path(q: Seq<char>, doc: Seq<char>, refn: Seq<char>, n: int) -> bool {
    exists|i: int| 1 <= i <= n && q == #[trigger] spec_page_path(doc, refn, i as u32)
}

/// Creates an attachment: one row plus one page row per supplied buffer
/// is inserted first (the rows are the source of truth for what should
/// exist), then the directories are created and each page is normalized,
/// compressed and written to its canonical path.  A buffer that cannot
/// be decoded is stored as the placeholder image rather than stopping
/// the commit.
pub fn create_attachment_commit(
    store: &mut MetaStore,
    fs: &mut FsState,
    document_id: u32,
    reference_number: String,
    comment: String,
    pages: Vec<Vec<u8>>,
    now: i64,
) -> (r: Result<u32, SyncError>)
    requires
        store_wf(old(store)@),
        fs_wf(old(fs)@),
    ensures
        store_wf(final(store)@),
        fs_wf(final(fs)@),
        r matches Err(_) ==> final(store)@ == old(store)@ && final(fs)@ == old(fs)@,
        !has_doc(old(store)@.documents, document_id) ==> r == Err::<u32, SyncError>(
            SyncError::Store(StoreError::NotFound),
        ),
        has_doc(old(store)@.documents, document_id) && !(valid_name(
            doc_of(old(store)@.documents, document_id).document_number,
        ) && valid_name(reference_number@)) ==> r == Err::<u32, SyncError>(SyncError::InvalidName),
        has_doc(old(store)@.documents, document_id) && valid_name(
            doc_of(old(store)@.documents, document_id).document_number,
        ) && valid_name(reference_number@) && pages@.len() >= u32::MAX ==> r == Err::<
            u32,
            SyncError,
        >(SyncError::Store(StoreError::IdSpaceExhausted)),
        has_doc(old(store)@.documents, document_id) && valid_name(
            doc_of(old(store)@.documents, document_id).document_number,
        ) && valid_name(reference_number@) && pages@.len() < u32::MAX && ref_number_taken(
            old(store)@.attachments,
            reference_number@,
        ) ==> r == Err::<u32, SyncError>(SyncError::Store(StoreError::DuplicateIdentifier)),
        has_doc(old(store)@.documents, document_id) && valid_name(
            doc_of(old(store)@.documents, document_id).document_number,
        ) && valid_name(reference_number@) && pages@.len() < u32::MAX && !ref_number_taken(
            old(store)@.attachments,
            reference_number@,
        ) && old(store)@.next_attachment_id < u32::MAX && pages@.len() <= u32::MAX - old(store)@.next_page_id ==> r matches Ok(_),
        r matches Ok(id) ==> has_doc(old(store)@.documents, document_id) && id == old(store)@.next_attachment_id && valid_name(reference_number@) && valid_name(
            doc_of(old(store)@.documents, document_id).document_number,
        ) && !ref_number_taken(old(store)@.attachments, reference_number@) && final(store)@.documents == old(store)@.documents && final(store)@.attachments == old(store)@.attachments.push(
            (AttModel {
                attachment_id: old(store)@.next_attachment_id,
                reference_number: reference_number@,
                comment: comment@,
                date_added: now,
                document_id: document_id,
            }),
        ) && final(store)@.pages == old(store)@.pages + spec_new_pages(
            canonical_paths(
                doc_of(old(store)@.documents, document_id).document_number,
                reference_number@,
                pages@.len() as int,
            ),
            old(store)@.next_page_id,
            old(store)@.next_attachment_id,
        ) && final(store)@.next_attachment_id == old(store)@.next_attachment_id + 1 && final(store)@.next_page_id == old(store)@.next_page_id + pages@.len() && final(store)@.next_document_id
            == old(store)@.next_document_id && final(fs)@.dirs == spec_create_dir(
            spec_create_dir(
                old(fs)@.dirs,
                spec_document_dir(doc_of(old(store)@.documents, document_id).document_number),
            ),
            spec_attachment_dir(
                doc_of(old(store)@.documents, document_id).document_number,
                reference_number@,
            ),
        ) && (forall|i: int|
            0 <= i < pages@.len() ==> has_file(
                final(fs)@.files,
                #[trigger] spec_page_path(
                    doc_of(old(store)@.documents, document_id).document_number,
                    reference_number@,
                    (i + 1) as u32,
                ),
            ) && stored_page_ok(
                bufs_view(pages@)[i],
                file_bytes(
                    final(fs)@.files,
                    spec_page_path(
                        doc_of(old(store)@.documents, document_id).document_number,
                        reference_number@,
                        (i + 1) as u32,
                    ),
                ),
            )) && (forall|q: Seq<char>|
            !is_canon_path(
                q,
                doc_of(old(store)@.documents, document_id).document_number,
                reference_number@,
                pages@.len() as int,
            ) ==> #[trigger] has_file(final(fs)@.files, q) == has_file(old(fs)@.files, q)) && (
        forall|q: Seq<char>|
            !is_canon_path(
                q,
                doc_of(old(store)@.documents, document_id).document_number,
                reference_number@,
                pages@.len() as int,
            ) && has_file(old(fs)@.files, q) ==> #[trigger] file_bytes(final(fs)@.files, q)
                == file_bytes(old(fs)@.files, q)),
{
    let doc_number = match document_number_of(store, document_id) {
        None => {
            return Err(SyncError::Store(StoreError::NotFound));
        },
        Some(n) => n,
    };
    if !is_valid_name(doc_number.as_str()) || !is_valid_name(reference_number.as_str()) {
        return Err(SyncError::InvalidName);
    }
    if pages.len() as u64 >= u32::MAX as u64 {
        return Err(SyncError::Store(StoreError::IdSpaceExhausted));
    }
    let ghost dn = doc_of(old(store)@.documents, document_id).document_number;
    let ghost rn = reference_number@;
    let ghost n_pages = pages@.len() as int;

    let mut paths: Vec<String> = Vec::new();
    let mut i: usize = 0;
    while i < pages.len()
        invariant
            i <= pages.len(),
            pages@.len() < u32::MAX,
            paths@.len() == i,
            doc_number@ == dn,
            reference_number@ == rn,
            forall|k: int|
                0 <= k < i ==> (#[trigger] paths@[k])@ == spec_page_path(dn, rn, (k + 1) as u32),
        decreases pages.len() - i,
    {
        paths.push(page_file_path(doc_number.as_str(), reference_number.as_str(), (i + 1) as u32));
        i = i + 1;
    }
    proof {
        assert(paths@.map_values(|p: String| p@) =~= canonical_paths(dn, rn, n_pages));
    }

    let att_id = match store.create_attachment(
        reference_number.clone(),
        comment,
        document_id,
        paths,
        now,
    ) {
        Err(e) => {
            return Err(SyncError::Store(e));
        },
        Ok(id) => id,
    };

    let ddir = document_dir(doc_number.as_str());
    let adir = attachment_dir(doc_number.as_str(), reference_number.as_str());
    fs.create_dir(&ddir);
    fs.create_dir(&adir);
    let ghost fs1 = fs@;
    proof {
        assert(fs1.files == old(fs)@.files);
    }

    let mut i: usize = 0;
    while i < pages.len()
        invariant
            i <= pages.len(),
            pages@.len() < u32::MAX,
            doc_number@ == dn,
            reference_number@ == rn,
            fs_wf(fs@),
            fs@.dirs == fs1.dirs,
            fs@.log.len() >= fs1.log.len(),
            fs@.log.subrange(0, fs1.log.len() as int) == fs1.log,
            forall|k: int|
                0 <= k < i ==> has_file(
                    fs@.files,
                    #[trigger] spec_page_path(dn, rn, (k + 1) as u32),
                ) && stored_page_ok(
                    bufs_view(pages@)[k],
                    file_bytes(fs@.files, spec_page_path(dn, rn, (k + 1) as u32)),
                ),
            forall|q: Seq<char>|
                !is_canon_path(q, dn, rn, i as int) ==> #[trigger] has_file(fs@.files, q)
                    == has_file(fs1.files, q),
            forall|q: Seq<char>|
                !is_canon_path(q, dn, rn, i as int) && has_file(fs1.files, q)
                    ==> #[trigger] file_bytes(fs@.files, q) == file_bytes(fs1.files, q),
        decreases pages.len() - i,
    {
        let ghost fs_before = fs@;
        let src = clone_bytes(&pages[i]);
        let normalized = normalize_to_storage_format(src);
        let stored = compress_storage(normalized);
        let ghost stored_bytes = stored@;
        let p = page_file_path(doc_number.as_str(), reference_number.as_str(), (i + 1) as u32);
        fs.write_file(&p, stored);
        proof {
            lemma_write_file_effect(fs_before.files, p@, stored_bytes);
            assert(stored_page_ok(bufs_view(pages@)[i as int], stored_bytes));
            assert forall|k: int|
                0 <= k < i + 1 implies has_file(
                fs@.files,
                #[trigger] spec_page_path(dn, rn, (k + 1) as u32),
            ) && stored_page_ok(
                bufs_view(pages@)[k],
                file_bytes(fs@.files, spec_page_path(dn, rn, (k + 1) as u32)),
            ) by {
                if k < i {
                    if spec_page_path(dn, rn, (k + 1) as u32) == p@ {
                        lemma_page_path_injective_in_index(
                            dn,
                            rn,
                            (k + 1) as u32,
                            (i + 1) as u32,
                        );
                        assert(false);
                    }
                }
            }
            assert forall|q: Seq<char>|
                !is_canon_path(q, dn, rn, i + 1) implies #[trigger] has_file(fs@.files, q)
                == has_file(fs1.files, q) by {
                assert(q != p@);
                assert(!is_canon_path(q, dn, rn, i as int));
            }
            assert forall|q: Seq<char>|
                !is_canon_path(q, dn, rn, i + 1) && has_file(fs1.files, q)
                implies #[trigger] file_bytes(fs@.files, q) == file_bytes(fs1.files, q) by {
                assert(q != p@);
                assert(!is_canon_path(q, dn, rn, i as int));
                assert(has_file(fs_before.files, q));
            }
            assert(fs@.log.subrange(0, fs1.log.len() as int) =~= fs1.log);
        }
        i = i + 1;
    }
    proof {
        assert forall|q: Seq<char>| !is_canon_path(q, dn, rn, n_pages) implies #[trigger] has_file(
            fs@.files,
            q,
        ) == has_file(old(fs)@.files, q) by {}
    }
    Ok(att_id)
}

/// The document number that the attachment carrying `att_id` lives
/// under.
pub open spec fn att_doc_number(m: StoreModel, att_id: u32) -> Seq<char> {
    doc_of(m.documents, att_of(m.attachments, att_id).document_id).document_number
}

/// The reference number of the attachment carrying `att_id`.
pub open spec fn att_ref(m: StoreModel, att_id: u32) -> Seq<char> {
    att_of(m.attachments, att_id).reference_number
}

/// How many page rows the attachment carrying `att_id` owns.
pub open spec fn att_page_count(m: StoreModel, att_id: u32) -> int {
    pages_of(m.pages, att_id).len() as int
}

/// The §-invariant of one attachment, localized: its names are usable,
/// each of its pages has a file at the canonical path, and nothing else
/// lives under its directory.
pub open spec fn attachment_files_in_place(m: StoreModel, fsm: crate::fs_state::FsModel, att_id: u32) -> bool {
    let dn = att_doc_number(m, att_id);
    let rn = att_ref(m, att_id);
    let n = att_page_count(m, att_id);
    &&& valid_name(dn)
    &&& valid_name(rn)
    &&& n < u32::MAX
    &&& forall|i: int|
        0 <= i < n ==> has_file(fsm.files, #[trigger] spec_page_path(dn, rn, (i + 1) as u32))
    &&& forall|q: Seq<char>|
        under_dir(spec_attachment_dir(dn, rn), q) && #[trigger] has_file(fsm.files, q)
            ==> is_canon_path(q, dn, rn, n)
}

/// Nothing occupies the directory a rename would move the attachment
/// into.
pub open spec fn target_area_clear(
    m: StoreModel,
    fsm: crate::fs_state::FsModel,
    att_id: u32,
    new_ref: Seq<char>,
) -> bool {
    new_ref != att_ref(m, att_id) ==> forall|q: Seq<char>|
        under_dir(spec_attachment_dir(att_doc_number(m, att_id), new_ref), q)
            ==> !#[trigger] has_file(fsm.files, q)
}

/// The details-only commit: the attachment row is rewritten; if the
/// reference number changed, the directory and every page file are
/// renamed under the new name — without re-encoding or recompressing —
/// and the page rows are replaced with the renamed paths.  The old
/// directory never survives a successful rename.
pub fn commit_attachment_details(
    store: &mut MetaStore,
    fs: &mut FsState,
    attachment_id: u32,
    new_reference_number: String,
    new_comment: String,
) -> (r: Result<(), SyncError>)
    requires
        store_wf(old(store)@),
        fs_wf(old(fs)@),
        has_att(old(store)@.attachments, attachment_id) ==> attachment_files_in_place(
            old(store)@,
            old(fs)@,
            attachment_id,
        ) && target_area_clear(old(store)@, old(fs)@, attachment_id, new_reference_number@),
    ensures
        store_wf(final(store)@),
        fs_wf(final(fs)@),
        r matches Err(_) ==> final(store)@ == old(store)@ && final(fs)@ == old(fs)@,
        !has_att(old(store)@.attachments, attachment_id) ==> r == Err::<(), SyncError>(
            SyncError::Store(StoreError::NotFound),
        ),
        has_att(old(store)@.attachments, attachment_id) && !valid_name(new_reference_number@) ==> r
            == Err::<(), SyncError>(SyncError::InvalidName),
        has_att(old(store)@.attachments, attachment_id) && valid_name(new_reference_number@)
            && new_reference_number@ != att_ref(old(store)@, attachment_id) && att_page_count(
            old(store)@,
            attachment_id,
        ) > u32::MAX - old(store)@.next_page_id ==> r == Err::<(), SyncError>(
            SyncError::Store(StoreError::IdSpaceExhausted),
        ),
        has_att(old(store)@.attachments, attachment_id) && valid_name(new_reference_number@) && !(
        new_reference_number@ != att_ref(old(store)@, attachment_id) && att_page_count(
            old(store)@,
            attachment_id,
        ) > u32::MAX - old(store)@.next_page_id) && ref_number_taken_by_other(
            old(store)@.attachments,
            attachment_id,
            new_reference_number@,
        ) ==> r == Err::<(), SyncError>(SyncError::Store(StoreError::DuplicateIdentifier)),
        has_att(old(store)@.attachments, attachment_id) && valid_name(new_reference_number@) && !(
        new_reference_number@ != att_ref(old(store)@, attachment_id) && att_page_count(
            old(store)@,
            attachment_id,
        ) > u32::MAX - old(store)@.next_page_id) && !ref_number_taken_by_other(
            old(store)@.attachments,
            attachment_id,
            new_reference_number@,
        ) ==> r == Ok::<(), SyncError>(()),
        r == Ok::<(), SyncError>(()) && new_reference_number@ == att_ref(
            old(store)@,
            attachment_id,
        ) ==> final(fs)@ == old(fs)@ && final(store)@.documents == old(store)@.documents && final(store)@.pages == old(store)@.pages && final(store)@.attachments == spec_update_attachment(
            old(store)@.attachments,
            attachment_id,
            new_reference_number@,
            new_comment@,
        ) && final(store)@.next_page_id == old(store)@.next_page_id,
        r == Ok::<(), SyncError>(()) && new_reference_number@ != att_ref(
            old(store)@,
            attachment_id,
        ) ==> final(store)@.documents == old(store)@.documents && final(store)@.attachments
            == spec_update_attachment(
            old(store)@.attachments,
            attachment_id,
            new_reference_number@,
            new_comment@,
        ) && final(store)@.pages == old(store)@.pages.filter(
            |p: PageModel| p.attachment_id != attachment_id,
        ) + spec_new_pages(
            canonical_paths(
                att_doc_number(old(store)@, attachment_id),
                new_reference_number@,
                att_page_count(old(store)@, attachment_id),
            ),
            old(store)@.next_page_id,
            attachment_id,
        ) && (forall|i: int|
            0 <= i < att_page_count(old(store)@, attachment_id) ==> has_file(
                final(fs)@.files,
                #[trigger] spec_page_path(
                    att_doc_number(old(store)@, attachment_id),
                    new_reference_number@,
                    (i + 1) as u32,
                ),
            ) && file_bytes(
                final(fs)@.files,
                spec_page_path(
                    att_doc_number(old(store)@, attachment_id),
                    new_reference_number@,
                    (i + 1) as u32,
                ),
            ) == file_bytes(
                old(fs)@.files,
                spec_page_path(
                    att_doc_number(old(store)@, attachment_id),
                    att_ref(old(store)@, attachment_id),
                    (i + 1) as u32,
                ),
            )) && (forall|q: Seq<char>|
            under_dir(spec_att_dir_in(old(store)@, attachment_id), q) ==> !#[trigger] has_file(
                final(fs)@.files,
                q,
            )) && !has_dir(final(fs)@.dirs, spec_att_dir_in(old(store)@, attachment_id)) && has_dir(
            final(fs)@.dirs,
            spec_attachment_dir(att_doc_number(old(store)@, attachment_id), new_reference_number@),
        ) && (forall|q: Seq<char>|
            !is_canon_path(
                q,
                att_doc_number(old(store)@, attachment_id),
                new_reference_number@,
                att_page_count(old(store)@, attachment_id),
            ) && !under_dir(spec_att_dir_in(old(store)@, attachment_id), q)
                ==> #[trigger] has_file(final(fs)@.files, q) == has_file(old(fs)@.files, q)) && (
        forall|q: Seq<char>|
            !is_canon_path(
                q,
                att_doc_number(old(store)@, attachment_id),
                new_reference_number@,
                att_page_count(old(store)@, attachment_id),
            ) && !under_dir(spec_att_dir_in(old(store)@, attachment_id), q) && has_file(
                old(fs)@.files,
                q,
            ) ==> #[trigger] file_bytes(final(fs)@.files, q) == file_bytes(old(fs)@.files, q)),
{
    let info = match attachment_info(store, attachment_id) {
        None => {
            return Err(SyncError::Store(StoreError::NotFound));
        },
        Some(info) => info,
    };
    let old_ref = info.0;
    let doc_number = match document_number_of(store, info.1) {
        None => {
            proof {
                let w = att_index_of(old(store)@.attachments, attachment_id);
                assert(has_doc(old(store)@.documents, old(store)@.attachments[w].document_id));
                assert(false);
            }
            return Err(SyncError::Store(StoreError::NotFound));
        },
        Some(n) => n,
    };
    if !is_valid_name(new_reference_number.as_str()) {
        return Err(SyncError::InvalidName);
    }
    let n = count_pages(store, attachment_id);
    let same = old_ref == new_reference_number;
    if !same && n as u64 > (u32::MAX - store.next_page_id) as u64 {
        return Err(SyncError::Store(StoreError::IdSpaceExhausted));
    }
    let ghost dn = att_doc_number(old(store)@, attachment_id);
    let ghost rn_old = att_ref(old(store)@, attachment_id);
    let ghost rn_new = new_reference_number@;
    let ghost n_pages = att_page_count(old(store)@, attachment_id);

    match store.update_attachment_details(
        attachment_id,
        new_reference_number.clone(),
        new_comment,
    ) {
        Err(e) => {
            return Err(SyncError::Store(e));
        },
        Ok(u) => u,
    };
    if same {
        return Ok(());
    }

    proof {
        lemma_ref_separation(dn, rn_old, rn_new);
        lemma_ref_separation(dn, rn_new, rn_old);
    }
    let old_dir = attachment_dir(doc_number.as_str(), old_ref.as_str());
    let new_dir = attachment_dir(doc_number.as_str(), new_reference_number.as_str());
    fs.create_dir(&new_dir);
    let ghost fs1 = fs@;
    proof {
        assert(fs1.files == old(fs)@.files);
        assert(has_dir(fs1.dirs, new_dir@)) by {
            if !has_dir(old(fs)@.dirs, new_dir@) {
                assert(fs1.dirs[fs1.dirs.len() - 1] == new_dir@);
            }
        }
        assert forall|k: int| 0 <= k < n_pages implies !has_file(
            fs1.files,
            #[trigger] spec_page_path(dn, rn_new, (k + 1) as u32),
        ) by {
            lemma_page_path_under_att_dir(dn, rn_new, (k + 1) as u32);
        }
    }

    let mut new_paths: Vec<String> = Vec::new();
    let mut i: usize = 0;
    while i < n
        invariant
            i <= n,
            n == n_pages,
            n_pages < u32::MAX,
            doc_number@ == dn,
            old_ref@ == rn_old,
            new_reference_number@ == rn_new,
            valid_name(dn),
            valid_name(rn_old),
            valid_name(rn_new),
            rn_old != rn_new,
            fs_wf(fs@),
            fs@.dirs == fs1.dirs,
            fs@.log.len() >= fs1.log.len(),
            fs@.log.subrange(0, fs1.log.len() as int) == fs1.log,
            new_paths@.len() == i,
            forall|k: int|
                0 <= k < i ==> (#[trigger] new_paths@[k])@ == spec_page_path(
                    dn,
                    rn_new,
                    (k + 1) as u32,
                ),
            forall|k: int|
                0 <= k < i ==> has_file(
                    fs@.files,
                    #[trigger] spec_page_path(dn, rn_new, (k + 1) as u32),
                ) && file_bytes(fs@.files, spec_page_path(dn, rn_new, (k + 1) as u32))
                    == file_bytes(old(fs)@.files, spec_page_path(dn, rn_old, (k + 1) as u32)),
            forall|k: int|
                i <= k < n_pages ==> has_file(
                    fs@.files,
                    #[trigger] spec_page_path(dn, rn_old, (k + 1) as u32),
                ) && file_bytes(fs@.files, spec_page_path(dn, rn_old, (k + 1) as u32))
                    == file_bytes(old(fs)@.files, spec_page_path(dn, rn_old, (k + 1) as u32)),
            forall|k: int|
                0 <= k < i ==> !has_file(
                    fs@.files,
                    #[trigger] spec_page_path(dn, rn_old, (k + 1) as u32),
                ),
            forall|k: int|
                i <= k < n_pages ==> !has_file(
                    fs@.files,
                    #[trigger] spec_page_path(dn, rn_new, (k + 1) as u32),
                ),
            forall|q: Seq<char>|
                under_dir(spec_attachment_dir(dn, rn_old), q) && #[trigger] has_file(fs@.files, q)
                    ==> (exists|k: int|
                    i < k <= n_pages && q == #[trigger] spec_page_path(dn, rn_old, k as u32)),
            forall|q: Seq<char>|
                !is_canon_path(q, dn, rn_old, n_pages) && !is_canon_path(q, dn, rn_new, n_pages)
                    ==> #[trigger] has_file(fs@.files, q) == has_file(fs1.files, q),
            forall|q: Seq<char>|
                !is_canon_path(q, dn, rn_old, n_pages) && !is_canon_path(q, dn, rn_new, n_pages)
                    && has_file(fs1.files, q) ==> #[trigger] file_bytes(fs@.files, q)
                    == file_bytes(fs1.files, q),
        decreases n - i,
    {
        let ghost fs_before = fs@;
        let oldp = page_file_path(doc_number.as_str(), old_ref.as_str(), (i + 1) as u32);
        let newp = page_file_path(
            doc_number.as_str(),
            new_reference_number.as_str(),
            (i + 1) as u32,
        );
        proof {
            assert(has_file(fs_before.files, oldp@));
            assert(!has_file(fs_before.files, newp@));
        }
        fs.rename_file(&oldp, &newp);
        proof {
            lemma_rename_file_effect(fs_before.files, oldp@, newp@);
            lemma_page_path_under_att_dir(dn, rn_old, (i + 1) as u32);
            lemma_page_path_under_att_dir(dn, rn_new, (i + 1) as u32);
            assert forall|k: int|
                0 <= k < i + 1 implies has_file(
                fs@.files,
                #[trigger] spec_page_path(dn, rn_new, (k + 1) as u32),
            ) && file_bytes(fs@.files, spec_page_path(dn, rn_new, (k + 1) as u32)) == file_bytes(
                old(fs)@.files,
                spec_page_path(dn, rn_old, (k + 1) as u32),
            ) by {
                if k < i {
                    let pk = spec_page_path(dn, rn_new, (k + 1) as u32);
                    if pk == oldp@ {
                        lemma_page_path_under_att_dir(dn, rn_new, (k + 1) as u32);
                        assert(false);
                    }
                    if pk == newp@ {
                        lemma_page_path_injective_in_index(dn, rn_new, (k + 1) as u32, (i + 1) as u32);
                        assert(false);
                    }
                }
            }
            assert forall|k: int|
                i + 1 <= k < n_pages implies has_file(
                fs@.files,
                #[trigger] spec_page_path(dn, rn_old, (k + 1) as u32),
            ) && file_bytes(fs@.files, spec_page_path(dn, rn_old, (k + 1) as u32)) == file_bytes(
                old(fs)@.files,
                spec_page_path(dn, rn_old, (k + 1) as u32),
            ) by {
                let pk = spec_page_path(dn, rn_old, (k + 1) as u32);
                if pk == oldp@ {
                    lemma_page_path_injective_in_index(dn, rn_old, (k + 1) as u32, (i + 1) as u32);
                    assert(false);
                }
                if pk == newp@ {
                    lemma_page_path_under_att_dir(dn, rn_old, (k + 1) as u32);
                    assert(false);
                }
            }
            assert forall|k: int|
                0 <= k < i + 1 implies !has_file(
                fs@.files,
                #[trigger] spec_page_path(dn, rn_old, (k + 1) as u32),
            ) by {
                let pk = spec_page_path(dn, rn_old, (k + 1) as u32);
                if pk == newp@ {
                    lemma_page_path_under_att_dir(dn, rn_old, (k + 1) as u32);
                    assert(false);
                }
                if k < i {
                    if pk == oldp@ {
                        lemma_page_path_injective_in_index(dn, rn_old, (k + 1) as u32, (i + 1) as u32);
                        assert(false);
                    }
                }
            }
            assert forall|q: Seq<char>|
                under_dir(spec_attachment_dir(dn, rn_old), q) && #[trigger] has_file(fs@.files, q)
                implies (exists|k: int|
                i + 1 < k <= n_pages && q == #[trigger] spec_page_path(dn, rn_old, k as u32)) by {
                assert(q != newp@);
                if q == oldp@ {
                    assert(!has_file(fs@.files, q));
                    assert(false);
                }
                assert(has_file(fs_before.files, q));
                let k = choose|k: int|
                    i < k <= n_pages && q == #[trigger] spec_page_path(dn, rn_old, k as u32);
                if k == i + 1 {
                    assert(q == oldp@);
                    assert(false);
                }
                assert(i + 1 < k <= n_pages && q == spec_page_path(dn, rn_old, k as u32));
            }
            assert forall|k: int|
                i + 1 <= k < n_pages implies !has_file(
                fs@.files,
                #[trigger] spec_page_path(dn, rn_new, (k + 1) as u32),
            ) by {
                let pk = spec_page_path(dn, rn_new, (k + 1) as u32);
                if pk == newp@ {
                    lemma_page_path_injective_in_index(dn, rn_new, (k + 1) as u32, (i + 1) as u32);
                    assert(false);
                }
                if pk == oldp@ {
                    lemma_page_path_under_att_dir(dn, rn_new, (k + 1) as u32);
                    assert(false);
                }
            }
            assert forall|q: Seq<char>|
                !is_canon_path(q, dn, rn_old, n_pages) && !is_canon_path(q, dn, rn_new, n_pages)
                implies #[trigger] has_file(fs@.files, q) == has_file(fs1.files, q) by {
                assert(q != oldp@);
                assert(q != newp@);
            }
            assert forall|q: Seq<char>|
                !is_canon_path(q, dn, rn_old, n_pages) && !is_canon_path(q, dn, rn_new, n_pages)
                    && has_file(fs1.files, q) implies #[trigger] file_bytes(fs@.files, q)
                == file_bytes(fs1.files, q) by {
                assert(q != oldp@);
                assert(q != newp@);
                assert(has_file(fs_before.files, q));
            }
            assert(fs@.log.subrange(0, fs1.log.len() as int) =~= fs1.log);
        }
        new_paths.push(newp);
        i = i + 1;
    }

    let ghost fs2 = fs@;
    fs.remove_dir_all(&old_dir);
    proof {
        lemma_remove_dir_effect(fs2.files, old_dir@);
        lemma_remove_dir_dirs_effect(fs2.dirs, old_dir@);
        assert forall|i2: int|
            0 <= i2 < n_pages implies has_file(
            fs@.files,
            #[trigger] spec_page_path(dn, rn_new, (i2 + 1) as u32),
        ) && file_bytes(fs@.files, spec_page_path(dn, rn_new, (i2 + 1) as u32)) == file_bytes(
            old(fs)@.files,
            spec_page_path(dn, rn_old, (i2 + 1) as u32),
        ) by {
            let pk = spec_page_path(dn, rn_new, (i2 + 1) as u32);
            assert(!under_dir(spec_attachment_dir(dn, rn_old), pk));
            assert(has_file(fs2.files, pk));
        }
        assert forall|q: Seq<char>|
            under_dir(spec_att_dir_in(old(store)@, attachment_id), q) implies !#[trigger] has_file(
            fs@.files,
            q,
        ) by {}
        assert(!has_dir(fs@.dirs, spec_att_dir_in(old(store)@, attachment_id)));
        assert(has_dir(fs@.dirs, spec_attachment_dir(dn, rn_new))) by {
            assert(!under_dir(spec_attachment_dir(dn, rn_old), spec_attachment_dir(dn, rn_new)));
        }
        assert forall|q: Seq<char>|
            !is_canon_path(q, dn, rn_new, n_pages) && !under_dir(
                spec_attachment_dir(dn, rn_old),
                q,
            ) implies #[trigger] has_file(fs@.files, q) == has_file(old(fs)@.files, q) by {
            if is_canon_path(q, dn, rn_old, n_pages) {
                let w = choose|w: int|
                    1 <= w <= n_pages && q == #[trigger] spec_page_path(dn, rn_old, w as u32);
                lemma_page_path_under_att_dir(dn, rn_old, w as u32);
                assert(false);
            }
            assert(has_file(fs2.files, q) == has_file(fs1.files, q));
            assert(has_file(fs@.files, q) == has_file(fs2.files, q));
        }
        assert forall|q: Seq<char>|
            !is_canon_path(q, dn, rn_new, n_pages) && !under_dir(
                spec_attachment_dir(dn, rn_old),
                q,
            ) && has_file(old(fs)@.files, q) implies #[trigger] file_bytes(fs@.files, q)
            == file_bytes(old(fs)@.files, q) by {
            if is_canon_path(q, dn, rn_old, n_pages) {
                let w = choose|w: int|
                    1 <= w <= n_pages && q == #[trigger] spec_page_path(dn, rn_old, w as u32);
                lemma_page_path_under_att_dir(dn, rn_old, w as u32);
                assert(false);
            }
            assert(has_file(fs2.files, q));
            assert(file_bytes(fs2.files, q) == file_bytes(fs1.files, q));
            assert(file_bytes(fs@.files, q) == file_bytes(fs2.files, q));
        }
    }

    let res = store.replace_attachment_pages(attachment_id, new_paths);
    proof {
        assert(has_att(store@.attachments, attachment_id)) by {
            let w = att_index_of(old(store)@.attachments, attachment_id);
            assert(store@.attachments[w].attachment_id == attachment_id);
        }
        assert(res is Ok);
        assert(new_paths@.map_values(|p: String| p@) =~= canonical_paths(dn, rn_new, n_pages));
    }
    Ok(())
}

/// The attachment's name components are usable path components.
pub open spec fn att_names_valid(m: StoreModel, att_id: u32) -> bool {
    valid_name(att_doc_number(m, att_id)) && valid_name(att_ref(m, att_id))
}

/// The full-rewrite commit, taken whenever the page byte set changed:
/// the attachment row is rewritten, the entire old directory is removed,
/// a fresh directory is created under the (possibly new) name, every new
/// page is normalized, compressed and written at indices 1 through M,
/// and the page rows are replaced by the new ordered set.
pub fn commit_attachment_pages(
    store: &mut MetaStore,
    fs: &mut FsState,
    attachment_id: u32,
    new_reference_number: String,
    new_comment: String,
    new_pages: Vec<Vec<u8>>,
) -> (r: Result<(), SyncError>)
    requires
        store_wf(old(store)@),
        fs_wf(old(fs)@),
        has_att(old(store)@.attachments, attachment_id) ==> att_names_valid(
            old(store)@,
            attachment_id,
        ) && target_area_clear(old(store)@, old(fs)@, attachment_id, new_reference_number@),
    ensures
        store_wf(final(store)@),
        fs_wf(final(fs)@),
        r matches Err(_) ==> final(store)@ == old(store)@ && final(fs)@ == old(fs)@,
        !has_att(old(store)@.attachments, attachment_id) ==> r == Err::<(), SyncError>(
            SyncError::Store(StoreError::NotFound),
        ),
        has_att(old(store)@.attachments, attachment_id) && !valid_name(new_reference_number@) ==> r
            == Err::<(), SyncError>(SyncError::InvalidName),
        has_att(old(store)@.attachments, attachment_id) && valid_name(new_reference_number@) && (
        new_pages@.len() >= u32::MAX || new_pages@.len() > u32::MAX - old(store)@.next_page_id)
            ==> r == Err::<(), SyncError>(SyncError::Store(StoreError::IdSpaceExhausted)),
        has_att(old(store)@.attachments, attachment_id) && valid_name(new_reference_number@)
            && new_pages@.len() < u32::MAX && new_pages@.len() <= u32::MAX - old(store)@.next_page_id && ref_number_taken_by_other(
            old(store)@.attachments,
            attachment_id,
            new_reference_number@,
        ) ==> r == Err::<(), SyncError>(SyncError::Store(StoreError::DuplicateIdentifier)),
        has_att(old(store)@.attachments, attachment_id) && valid_name(new_reference_number@)
            && new_pages@.len() < u32::MAX && new_pages@.len() <= u32::MAX - old(store)@.next_page_id && !ref_number_taken_by_other(
            old(store)@.attachments,
            attachment_id,
            new_reference_number@,
        ) ==> r == Ok::<(), SyncError>(()),
        r == Ok::<(), SyncError>(()) ==> final(store)@.documents == old(store)@.documents && final(store)@.attachments == spec_update_attachment(
            old(store)@.attachments,
            attachment_id,
            new_reference_number@,
            new_comment@,
        ) && final(store)@.pages == old(store)@.pages.filter(
            |p: PageModel| p.attachment_id != attachment_id,
        ) + spec_new_pages(
            canonical_paths(
                att_doc_number(old(store)@, attachment_id),
                new_reference_number@,
                new_pages@.len() as int,
            ),
            old(store)@.next_page_id,
            attachment_id,
        ) && final(store)@.next_page_id == old(store)@.next_page_id + new_pages@.len() && final(fs)@.dirs == spec_create_dir(
            crate::fs_state::spec_remove_dir_dirs(
                old(fs)@.dirs,
                spec_att_dir_in(old(store)@, attachment_id),
            ),
            spec_attachment_dir(att_doc_number(old(store)@, attachment_id), new_reference_number@),
        ) && (forall|i: int|
            0 <= i < new_pages@.len() ==> has_file(
                final(fs)@.files,
                #[trigger] spec_page_path(
                    att_doc_number(old(store)@, attachment_id),
                    new_reference_number@,
                    (i + 1) as u32,
                ),
            ) && stored_page_ok(
                bufs_view(new_pages@)[i],
                file_bytes(
                    final(fs)@.files,
                    spec_page_path(
                        att_doc_number(old(store)@, attachment_id),
                        new_reference_number@,
                        (i + 1) as u32,
                    ),
                ),
            )) && (forall|q: Seq<char>|
            under_dir(spec_att_dir_in(old(store)@, attachment_id), q) && !is_canon_path(
                q,
                att_doc_number(old(store)@, attachment_id),
                new_reference_number@,
                new_pages@.len() as int,
            ) ==> !#[trigger] has_file(final(fs)@.files, q)) && (forall|q: Seq<char>|
            under_dir(
                spec_attachment_dir(
                    att_doc_number(old(store)@, attachment_id),
                    new_reference_number@,
                ),
                q,
            ) && !is_canon_path(
                q,
                att_doc_number(old(store)@, attachment_id),
                new_reference_number@,
                new_pages@.len() as int,
            ) ==> !#[trigger] has_file(final(fs)@.files, q)) && (forall|q: Seq<char>|
            !under_dir(spec_att_dir_in(old(store)@, attachment_id), q) && !is_canon_path(
                q,
                att_doc_number(old(store)@, attachment_id),
                new_reference_number@,
                new_pages@.len() as int,
            ) ==> #[trigger] has_file(final(fs)@.files, q) == has_file(old(fs)@.files, q)) && (
        forall|q: Seq<char>|
            !under_dir(spec_att_dir_in(old(store)@, attachment_id), q) && !is_canon_path(
                q,
                att_doc_number(old(store)@, attachment_id),
                new_reference_number@,
                new_pages@.len() as int,
            ) && has_file(old(fs)@.files, q) ==> #[trigger] file_bytes(final(fs)@.files, q)
                == file_bytes(old(fs)@.files, q)) && (new_reference_number@ != att_ref(
            old(store)@,
            attachment_id,
        ) ==> !has_dir(final(fs)@.dirs, spec_att_dir_in(old(store)@, attachment_id))) && has_dir(
            final(fs)@.dirs,
            spec_attachment_dir(att_doc_number(old(store)@, attachment_id), new_reference_number@),
        ),
{
    let info = match attachment_info(store, attachment_id) {
        None => {
            return Err(SyncError::Store(StoreError::NotFound));
        },
        Some(info) => info,
    };
    let old_ref = info.0;
    let doc_number = match document_number_of(store, info.1) {
        None => {
            proof {
                let w = att_index_of(old(store)@.attachments, attachment_id);
                assert(has_doc(old(store)@.documents, old(store)@.attachments[w].document_id));
                assert(false);
            }
            return Err(SyncError::Store(StoreError::NotFound));
        },
        Some(n) => n,
    };
    if !is_valid_name(new_reference_number.as_str()) {
        return Err(SyncError::InvalidName);
    }
    if new_pages.len() as u64 >= u32::MAX as u64 {
        return Err(SyncError::Store(StoreError::IdSpaceExhausted));
    }
    if new_pages.len() as u64 > (u32::MAX - store.next_page_id) as u64 {
        return Err(SyncError::Store(StoreError::IdSpaceExhausted));
    }
    let ghost dn = att_doc_number(old(store)@, attachment_id);
    let ghost rn_old = att_ref(old(store)@, attachment_id);
    let ghost rn_new = new_reference_number@;
    let ghost m_pages = new_pages@.len() as int;

    match store.update_attachment_details(
        attachment_id,
        new_reference_number.clone(),
        new_comment,
    ) {
        Err(e) => {
            return Err(SyncError::Store(e));
        },
        Ok(u) => u,
    };

    let old_dir = attachment_dir(doc_number.as_str(), old_ref.as_str());
    let new_dir = attachment_dir(doc_number.as_str(), new_reference_number.as_str());
    fs.remove_dir_all(&old_dir);
    let ghost fs1 = fs@;
    proof {
        lemma_remove_dir_effect(old(fs)@.files, old_dir@);
        lemma_remove_dir_dirs_effect(old(fs)@.dirs, old_dir@);
    }
    fs.create_dir(&new_dir);
    let ghost fs2 = fs@;
    proof {
        assert(fs2.files == fs1.files);
        assert(has_dir(fs2.dirs, new_dir@)) by {
            if !has_dir(fs1.dirs, new_dir@) {
                assert(fs2.dirs[fs2.dirs.len() - 1] == new_dir@);
            }
        }
    }

    let mut new_paths: Vec<String> = Vec::new();
    let mut i: usize = 0;
    while i < new_pages.len()
        invariant
            i <= new_pages.len(),
            new_pages@.len() < u32::MAX,
            doc_number@ == dn,
            new_reference_number@ == rn_new,
            fs_wf(fs@),
            fs@.dirs == fs2.dirs,
            fs@.log.len() >= fs2.log.len(),
            fs@.log.subrange(0, fs2.log.len() as int) == fs2.log,
            new_paths@.len() == i,
            forall|k: int|
                0 <= k < i ==> (#[trigger] new_paths@[k])@ == spec_page_path(
                    dn,
                    rn_new,
                    (k + 1) as u32,
                ),
            forall|k: int|
                0 <= k < i ==> has_file(
                    fs@.files,
                    #[trigger] spec_page_path(dn, rn_new, (k + 1) as u32),
                ) && stored_page_ok(
                    bufs_view(new_pages@)[k],
                    file_bytes(fs@.files, spec_page_path(dn, rn_new, (k + 1) as u32)),
                ),
            forall|q: Seq<char>|
                !is_canon_path(q, dn, rn_new, i as int) ==> #[trigger] has_file(fs@.files, q)
                    == has_file(fs2.files, q),
            forall|q: Seq<char>|
                !is_canon_path(q, dn, rn_new, i as int) && has_file(fs2.files, q)
                    ==> #[trigger] file_bytes(fs@.files, q) == file_bytes(fs2.files, q),
        decreases new_pages.len() - i,
    {
        let ghost fs_before = fs@;
        let src = clone_bytes(&new_pages[i]);
        let normalized = normalize_to_storage_format(src);
        let stored = compress_storage(normalized);
        let ghost stored_bytes = stored@;
        let p = page_file_path(
            doc_number.as_str(),
            new_reference_number.as_str(),
            (i + 1) as u32,
        );
        fs.write_file(&p, stored);
        proof {
            lemma_write_file_effect(fs_before.files, p@, stored_bytes);
            assert(stored_page_ok(bufs_view(new_pages@)[i as int], stored_bytes));
            assert forall|k: int|
                0 <= k < i + 1 implies has_file(
                fs@.files,
                #[trigger] spec_page_path(dn, rn_new, (k + 1) as u32),
            ) && stored_page_ok(
                bufs_view(new_pages@)[k],
                file_bytes(fs@.files, spec_page_path(dn, rn_new, (k + 1) as u32)),
            ) by {
                if k < i {
                    if spec_page_path(dn, rn_new, (k + 1) as u32) == p@ {
                        lemma_page_path_injective_in_index(dn, rn_new, (k + 1) as u32, (i + 1) as u32);
                        assert(false);
                    }
                }
            }
            assert forall|q: Seq<char>|
                !is_canon_path(q, dn, rn_new, i + 1) implies #[trigger] has_file(fs@.files, q)
                == has_file(fs2.files, q) by {
                assert(q != p@);
                assert(!is_canon_path(q, dn, rn_new, i as int));
            }
            assert forall|q: Seq<char>|
                !is_canon_path(q, dn, rn_new, i + 1) && has_file(fs2.files, q)
                implies #[trigger] file_bytes(fs@.files, q) == file_bytes(fs2.files, q) by {
                assert(q != p@);
                assert(!is_canon_path(q, dn, rn_new, i as int));
                assert(has_file(fs_before.files, q));
            }
            assert(fs@.log.subrange(0, fs2.log.len() as int) =~= fs2.log);
        }
        new_paths.push(p);
        i = i + 1;
    }

    proof {
        assert forall|q: Seq<char>|
            under_dir(spec_att_dir_in(old(store)@, attachment_id), q) && !is_canon_path(
                q,
                dn,
                rn_new,
                m_pages,
            ) implies !#[trigger] has_file(fs@.files, q) by {
            assert(!has_file(fs1.files, q));
            assert(has_file(fs@.files, q) == has_file(fs2.files, q));
        }
        assert forall|q: Seq<char>|
            under_dir(spec_attachment_dir(dn, rn_new), q) && !is_canon_path(
                q,
                dn,
                rn_new,
                m_pages,
            ) implies !#[trigger] has_file(fs@.files, q) by {
            if rn_new == rn_old {
                assert(spec_attachment_dir(dn, rn_new) == spec_att_dir_in(
                    old(store)@,
                    attachment_id,
                ));
                assert(!has_file(fs1.files, q));
            } else {
                if under_dir(spec_att_dir_in(old(store)@, attachment_id), q) {
                    assert(!has_file(fs1.files, q));
                } else {
                    assert(has_file(fs1.files, q) == has_file(old(fs)@.files, q));
                    assert(!has_file(old(fs)@.files, q));
                }
            }
            assert(has_file(fs@.files, q) == has_file(fs2.files, q));
        }
        if rn_new != rn_old {
            lemma_ref_separation(dn, rn_old, rn_new);
            assert(!has_dir(fs1.dirs, old_dir@));
            assert(!has_dir(fs@.dirs, spec_att_dir_in(old(store)@, attachment_id))) by {
                if !has_dir(fs1.dirs, new_dir@) {
                    assert forall|w: int|
                        0 <= w < fs2.dirs.len() implies fs2.dirs[w] != old_dir@ by {
                        if w < fs1.dirs.len() {
                            assert(fs2.dirs[w] == fs1.dirs[w]);
                            if fs1.dirs[w] == old_dir@ {
                                assert(has_dir(fs1.dirs, old_dir@));
                            }
                        } else {
                            assert(fs2.dirs[w] == new_dir@);
                        }
                    }
                } else {
                    assert(fs2.dirs == fs1.dirs);
                    if has_dir(fs2.dirs, old_dir@) {
                        assert(has_dir(fs1.dirs, old_dir@));
                    }
                }
            }
        }
    }

    let res = store.replace_attachment_pages(attachment_id, new_paths);
    proof {
        assert(has_att(store@.attachments, attachment_id)) by {
            let w = att_index_of(old(store)@.attachments, attachment_id);
            assert(store@.attachments[w].attachment_id == attachment_id);
        }
        assert(res is Ok);
        assert(new_paths@.map_values(|p: String| p@) =~= canonical_paths(dn, rn_new, m_pages));
    }
    Ok(())
}

/// The page rows an attachment ends up with after a full page-set
/// replacement.
pub open spec fn pages_after_replace(
    old_pages: Seq<PageModel>,
    att_id: u32,
    doc: Seq<char>,
    refn: Seq<char>,
    m: int,
    first: u32,
) -> Seq<PageModel> {
    pages_of(
        old_pages.filter(|p: PageModel| p.attachment_id != att_id) + spec_new_pages(
            canonical_paths(doc, refn, m),
            first,
            att_id,
        ),
        att_id,
    )
}

/// Law: after a full page-set commit that supplied M new pages, the
/// store holds exactly M page rows for the attachment, carrying the
/// canonical paths with indices 1 through M, in order.  (The commit's
/// own contract adds that the old directory no longer exists when the
/// name changed.)
pub proof fn lemma_page_rows_after_pages_commit(
    old_pages: Seq<PageModel>,
    att_id: u32,
    doc: Seq<char>,
    refn: Seq<char>,
    m: int,
    first: u32,
)
    requires
        0 <= m,
    ensures
        pages_after_replace(old_pages, att_id, doc, refn, m, first).len() == m,
        forall|i: int|
            0 <= i < m ==> (#[trigger] pages_after_replace(
                old_pages,
                att_id,
                doc,
                refn,
                m,
                first,
            )[i]).file_path == spec_page_path(doc, refn, (i + 1) as u32),
{
    let keep = |p: PageModel| p.attachment_id == att_id;
    let dropped = old_pages.filter(|p: PageModel| p.attachment_id != att_id);
    let fresh = spec_new_pages(canonical_paths(doc, refn, m), first, att_id);
    Seq::filter_distributes_over_add(dropped, fresh, keep);
    crate::seq_facts::lemma_filter_elements(
        old_pages,
        |p: PageModel| p.attachment_id != att_id,
    );
    assert forall|i: int| 0 <= i < dropped.len() implies !keep(#[trigger] dropped[i]) by {
        old_pages.lemma_filter_pred(|p: PageModel| p.attachment_id != att_id, i);
    }
    lemma_filter_none(dropped, keep);
    assert forall|i: int| 0 <= i < fresh.len() implies keep(#[trigger] fresh[i]) by {}
    lemma_filter_all(fresh, keep);
    assert(pages_after_replace(old_pages, att_id, doc, refn, m, first) =~= fresh);
}

/// Law: committing a details-only edit twice with the same inputs
/// leaves the same attachment rows as committing it once — the second
/// row update changes nothing.  (After the first commit the stored
/// reference number already equals the new one, so by the commit's own
/// contract the second run leaves the filesystem untouched as well:
/// same directory, same page rows, same files.)
pub proof fn lemma_details_commit_idempotent(
    atts: Seq<AttModel>,
    att_id: u32,
    n: Seq<char>,
    c: Seq<char>,
)
    requires
        forall|i: int, j: int|
            0 <= i < j < atts.len() ==> (#[trigger] atts[i]).attachment_id != (
            #[trigger] atts[j]).attachment_id,
        has_att(atts, att_id),
    ensures
        spec_update_attachment(spec_update_attachment(atts, att_id, n, c), att_id, n, c)
            == spec_update_attachment(atts, att_id, n, c),
        att_of(spec_update_attachment(atts, att_id, n, c), att_id).reference_number == n,
        att_of(spec_update_attachment(atts, att_id, n, c), att_id).comment == c,
        has_att(spec_update_attachment(atts, att_id, n, c), att_id),
    decreases atts.len(),
{
    let once = spec_update_attachment(atts, att_id, n, c);
    let twice = spec_update_attachment(once, att_id, n, c);
    assert forall|i: int| 0 <= i < twice.len() implies twice[i] == once[i] by {}
    assert(twice =~~= once);
    let w = choose|w: int| 0 <= w < atts.len() && (#[trigger] atts[w]).attachment_id == att_id;
    assert(once[w].attachment_id == att_id);
    assert(has_att(once, att_id));
    let v = att_index_of(once, att_id);
    if v != w {
        assert(once[v].attachment_id == once[w].attachment_id);
        assert(atts[v].attachment_id == atts[w].attachment_id);
        assert(false);
    }
}

/// Law: deleting a document removes its row, every attachment row it
/// owned, and every page row of those attachments — the full cascade.
pub proof fn lemma_delete_document_cascades(m: StoreModel, document_id: u32, att_id: u32)
    requires
        store_wf(m),
        has_att(m.attachments, att_id),
        att_of(m.attachments, att_id).document_id == document_id,
    ensures
        !has_doc(m.documents.filter(|d: DocModel| d.document_id != document_id), document_id),
        crate::read::atts_of(
            m.attachments.filter(|a: AttModel| a.document_id != document_id),
            document_id,
        ) == Seq::<AttModel>::empty(),
        pages_of(
            m.pages.filter(
                |p: PageModel|
                    has_att(
                        m.attachments.filter(|a: AttModel| a.document_id != document_id),
                        p.attachment_id,
                    ),
            ),
            att_id,
        ) == Seq::<PageModel>::empty(),
{
    let doc_pred = |d: DocModel| d.document_id != document_id;
    let att_pred = |a: AttModel| a.document_id != document_id;
    let kept_atts = m.attachments.filter(att_pred);
    let page_pred = |p: PageModel| has_att(kept_atts, p.attachment_id);

    if has_doc(m.documents.filter(doc_pred), document_id) {
        let w = choose|w: int|
            0 <= w < m.documents.filter(doc_pred).len() && (#[trigger] m.documents.filter(
                doc_pred,
            )[w]).document_id == document_id;
        m.documents.lemma_filter_pred(doc_pred, w);
    }

    assert forall|i: int|
        0 <= i < kept_atts.len() implies (#[trigger] kept_atts[i]).document_id != document_id by {
        m.attachments.lemma_filter_pred(att_pred, i);
    }
    let own = |a: AttModel| a.document_id == document_id;
    assert forall|i: int| 0 <= i < kept_atts.len() implies !own(#[trigger] kept_atts[i]) by {}
    lemma_filter_none(kept_atts, own);
    assert(crate::read::atts_of(kept_atts, document_id) =~= Seq::<AttModel>::empty());

    // No kept page can point at the deleted attachment: the surviving
    // attachment rows all belong to other documents, and attachment ids
    // are unique.
    let kept_pages = m.pages.filter(page_pred);
    let mine = |p: PageModel| p.attachment_id == att_id;
    crate::seq_facts::lemma_filter_elements(m.attachments, att_pred);
    assert forall|i: int| 0 <= i < kept_pages.len() implies !mine(#[trigger] kept_pages[i]) by {
        m.pages.lemma_filter_pred(page_pred, i);
        if kept_pages[i].attachment_id == att_id {
            assert(has_att(kept_atts, att_id));
            let w = choose|w: int|
                0 <= w < kept_atts.len() && (#[trigger] kept_atts[w]).attachment_id == att_id;
            assert(m.attachments.contains(kept_atts[w]));
            let v = choose|v: int|
                0 <= v < m.attachments.len() && m.attachments[v] == kept_atts[w];
            let u = att_index_of(m.attachments, att_id);
            if u != v {
                assert(m.attachments[u].attachment_id != m.attachments[v].attachment_id);
            }
            assert(m.attachments[v].document_id == document_id);
            assert(kept_atts[w].document_id != document_id);
            assert(false);
        }
    }
    lemma_filter_none(kept_pages, mine);
    assert(pages_of(kept_pages, att_id) =~= Seq::<PageModel>::empty());
}

/// Sum of the first `k` entries.
pub open spec fn sum_prefix(counts: Seq<int>, k: int) -> int
    decreases k,
{
    if k <= 0 {
        0
    } else {
        sum_prefix(counts, k - 1) + counts[k - 1]
    }
}

proof fn lemma_sum_prefix_mono(counts: Seq<int>, j: int, k: int)
    requires
        0 <= j <= k <= counts.len(),
        forall|i: int| 0 <= i < counts.len() ==> counts[i] >= 0,
    ensures
        sum_prefix(counts, j) <= sum_prefix(counts, k),
    decreases k - j,
{
    if j < k {
        lemma_sum_prefix_mono(counts, j, k - 1);
    }
}

/// Replacing one attachment's page rows leaves every other attachment's
/// page rows untouched.
pub proof fn lemma_pages_of_other_after_replace(
    pages: Seq<PageModel>,
    b: u32,
    fresh_paths: Seq<Seq<char>>,
    first: u32,
    a: u32,
)
    requires
        a != b,
    ensures
        pages_of(
            pages.filter(|p: PageModel| p.attachment_id != b) + spec_new_pages(
                fresh_paths,
                first,
                b,
            ),
            a,
        ) == pages_of(pages, a),
{
    let keep_a = |p: PageModel| p.attachment_id == a;
    let not_b = |p: PageModel| p.attachment_id != b;
    let fresh = spec_new_pages(fresh_paths, first, b);
    Seq::filter_distributes_over_add(pages.filter(not_b), fresh, keep_a);
    assert forall|i: int| 0 <= i < fresh.len() implies !keep_a(#[trigger] fresh[i]) by {}
    lemma_filter_none(fresh, keep_a);
    lemma_filter_implied(pages, not_b, keep_a);
    Seq::add_empty_right(pages.filter(not_b).filter(keep_a), fresh.filter(keep_a));
}

/// One attachment's page count, as the store model sees it, attachment
/// by attachment of one document.
pub open spec fn counts_of(m: StoreModel, document_id: u32) -> Seq<int> {
    crate::read::atts_of(m.attachments, document_id).map_values(
        |a: AttModel| pages_of(m.pages, a.attachment_id).len() as int,
    )
}

/// How many page rows one document's attachments own altogether.
pub open spec fn doc_page_total(m: StoreModel, document_id: u32) -> int {
    sum_prefix(counts_of(m, document_id), counts_of(m, document_id).len() as int)
}

/// Some attachment row below `bound` carries this id, reference number
/// and owning document.
pub open spec fn att_row_witness(
    m: StoreModel,
    document_id: u32,
    id: u32,
    refn: Seq<char>,
    bound: int,
) -> bool {
    exists|w: int|
        0 <= w < bound && (#[trigger] m.attachments[w]).attachment_id == id
            && m.attachments[w].document_id == document_id && m.attachments[w].reference_number
            == refn
}

/// The gathered attachments carry pairwise distinct ids and reference
/// numbers.
pub open spec fn gathered_distinct(ids: Seq<u32>, refs: Seq<String>) -> bool {
    forall|j1: int, j2: int|
        0 <= j1 < j2 < ids.len() ==> #[trigger] ids[j1] != #[trigger] ids[j2] && refs[j1]@
            != refs[j2]@
}

/// Lists one document's attachments: ids, reference numbers and page
/// counts, in row order.
fn gather_doc_attachments(store: &MetaStore, document_id: u32) -> (r: (
    Vec<u32>,
    Vec<String>,
    Vec<usize>,
))
    requires
        store_wf(store@),
    ensures
        r.1@.len() == r.0@.len(),
        r.2@.len() == r.0@.len(),
        r.0@.len() == crate::read::atts_of(store@.attachments, document_id).len(),
        forall|j: int|
            0 <= j < r.0@.len() ==> #[trigger] r.0@[j] == crate::read::atts_of(
                store@.attachments,
                document_id,
            )[j].attachment_id && (#[trigger] r.1@[j])@ == crate::read::atts_of(
                store@.attachments,
                document_id,
            )[j].reference_number && #[trigger] r.2@[j] == pages_of(store@.pages, r.0@[j]).len(),
        forall|j: int|
            0 <= j < r.0@.len() ==> att_row_witness(
                store@,
                document_id,
                #[trigger] r.0@[j],
                r.1@[j]@,
                store@.attachments.len() as int,
            ),
        forall|w: int|
            0 <= w < store@.attachments.len() && (
            #[trigger] store@.attachments[w]).document_id == document_id ==> exists|j: int|
                0 <= j < r.0@.len() && #[trigger] r.0@[j] == store@.attachments[w].attachment_id,
        gathered_distinct(r.0@, r.1@),
{
    let ghost m0 = store@;
    let mut att_ids: Vec<u32> = Vec::new();
    let mut att_refs: Vec<String> = Vec::new();
    let mut i: usize = 0;
    while i < store.attachments.len()
        invariant
            i <= store.attachments.len(),
            att_refs@.len() == att_ids@.len(),
            att_ids@.len() == crate::read::atts_of(
                m0.attachments.subrange(0, i as int),
                document_id,
            ).len(),
            forall|j: int|
                0 <= j < att_ids@.len() ==> #[trigger] att_ids@[j] == crate::read::atts_of(
                    m0.attachments.subrange(0, i as int),
                    document_id,
                )[j].attachment_id && (#[trigger] att_refs@[j])@ == crate::read::atts_of(
                    m0.attachments.subrange(0, i as int),
                    document_id,
                )[j].reference_number,
            forall|j: int|
                0 <= j < att_ids@.len() ==> att_row_witness(
                    m0,
                    document_id,
                    #[trigger] att_ids@[j],
                    att_refs@[j]@,
                    i as int,
                ),
            forall|w: int|
                0 <= w < i && (#[trigger] m0.attachments[w]).document_id == document_id ==> exists|
                    j: int,
                |
                    0 <= j < att_ids@.len() && #[trigger] att_ids@[j]
                        == m0.attachments[w].attachment_id,
            forall|j1: int, j2: int|
                0 <= j1 < j2 < att_ids@.len() ==> #[trigger] att_ids@[j1] != #[trigger] att_ids@[j2]
                    && att_refs@[j1]@ != att_refs@[j2]@,
        decreases store.attachments.len() - i,
    {
        let ghost prefix = m0.attachments.subrange(0, i as int);
        let ghost ids0 = att_ids@;
        let row = &store.attachments[i];
        if row.document_id == document_id {
            proof {
                assert forall|j: int| 0 <= j < att_ids@.len() implies #[trigger] att_ids@[j] != (
                m0.attachments[i as int]).attachment_id && att_refs@[j]@ != (
                m0.attachments[i as int]).reference_number by {
                    let w = choose|w: int|
                        0 <= w < i && (#[trigger] m0.attachments[w]).attachment_id == att_ids@[j]
                            && m0.attachments[w].document_id == document_id
                            && m0.attachments[w].reference_number == att_refs@[j]@;
                    assert(m0.attachments[w].attachment_id != m0.attachments[
                        i as int
                    ].attachment_id);
                }
            }
            att_ids.push(row.attachment_id);
            att_refs.push(row.reference_number.clone());
        }
        proof {
            assert(m0.attachments.subrange(0, i + 1) =~= prefix.push(m0.attachments[i as int]));
            crate::read::lemma_atts_of_push(prefix, m0.attachments[i as int], document_id);
            assert forall|w: int|
                0 <= w < i + 1 && (#[trigger] m0.attachments[w]).document_id == document_id
                implies exists|j: int|
                0 <= j < att_ids@.len() && #[trigger] att_ids@[j] == m0.attachments[
                    w
                ].attachment_id by {
                if w == i {
                    assert(att_ids@[att_ids@.len() - 1] == m0.attachments[
                        i as int
                    ].attachment_id);
                } else {
                    let j = choose|j: int|
                        0 <= j < ids0.len() && #[trigger] ids0[j] == m0.attachments[
                            w
                        ].attachment_id;
                    assert(att_ids@[j] == ids0[j]);
                }
            }
        }
        i = i + 1;
    }
    proof {
        assert(m0.attachments.subrange(0, m0.attachments.len() as int) =~= m0.attachments);
    }

    let mut att_counts: Vec<usize> = Vec::new();
    let mut t: usize = 0;
    while t < att_ids.len()
        invariant
            t <= att_ids@.len(),
            att_counts@.len() == t,
            forall|j: int|
                0 <= j < t ==> #[trigger] att_counts@[j] == pages_of(m0.pages, att_ids@[j]).len(),
        decreases att_ids.len() - t,
    {
        let c = count_pages(store, att_ids[t]);
        att_counts.push(c);
        t = t + 1;
    }
    (att_ids, att_refs, att_counts)
}

/// Whether the document's pages all fit in the remaining identifier
/// space.
fn check_page_room(att_counts: &Vec<usize>, room: u64) -> (ok: bool)
    requires
        room < 0x1_0000_0000u64,
        forall|j: int| 0 <= j < att_counts@.len() ==> #[trigger] att_counts@[j] < u32::MAX,
    ensures
        ok == (sum_prefix(
            att_counts@.map_values(|c: usize| c as int),
            att_counts@.len() as int,
        ) <= room),
{
    let ghost counts_seq = att_counts@.map_values(|c: usize| c as int);
    let mut total: u64 = 0;
    let mut t: usize = 0;
    while t < att_counts.len()
        invariant
            t <= att_counts@.len(),
            counts_seq == att_counts@.map_values(|c: usize| c as int),
            room < 0x1_0000_0000u64,
            forall|j: int| 0 <= j < att_counts@.len() ==> #[trigger] att_counts@[j] < u32::MAX,
            total == sum_prefix(counts_seq, t as int),
            total <= room,
        decreases att_counts.len() - t,
    {
        let c = att_counts[t] as u64;
        if c > room - total {
            proof {
                assert(sum_prefix(counts_seq, t + 1) > room);
                lemma_sum_prefix_mono(counts_seq, t + 1, counts_seq.len() as int);
            }
            return false;
        }
        total = total + c;
        t = t + 1;
    }
    true
}

/// Copies one attachment's page files from their canonical paths under
/// the old document number to the canonical paths under the new one,
/// creating the attachment's new directory first.  File contents move
/// byte for byte; nothing else changes.
fn rewrite_attachment_files(
    fs: &mut FsState,
    old_number: &String,
    new_number: &String,
    refk: &String,
    nk: usize,
) -> (new_paths: Vec<String>)
    requires
        fs_wf(old(fs)@),
        valid_name(old_number@),
        valid_name(new_number@),
        valid_name(refk@),
        old_number@ != new_number@,
        nk < u32::MAX,
        forall|p: int|
            0 <= p < nk ==> has_file(
                old(fs)@.files,
                #[trigger] spec_page_path(old_number@, refk@, (p + 1) as u32),
            ),
    ensures
        fs_wf(final(fs)@),
        final(fs)@.dirs == spec_create_dir(
            old(fs)@.dirs,
            spec_attachment_dir(new_number@, refk@),
        ),
        new_paths@.len() == nk,
        forall|p: int|
            0 <= p < nk ==> (#[trigger] new_paths@[p])@ == spec_page_path(
                new_number@,
                refk@,
                (p + 1) as u32,
            ),
        forall|p: int|
            0 <= p < nk ==> has_file(
                final(fs)@.files,
                #[trigger] spec_page_path(new_number@, refk@, (p + 1) as u32),
            ) && file_bytes(
                final(fs)@.files,
                spec_page_path(new_number@, refk@, (p + 1) as u32),
            ) == file_bytes(old(fs)@.files, spec_page_path(old_number@, refk@, (p + 1) as u32)),
        forall|q: Seq<char>|
            !is_canon_path(q, new_number@, refk@, nk as int) ==> #[trigger] has_file(
                final(fs)@.files,
                q,
            ) == has_file(old(fs)@.files, q),
        forall|q: Seq<char>|
            !is_canon_path(q, new_number@, refk@, nk as int) && has_file(old(fs)@.files, q)
                ==> #[trigger] file_bytes(final(fs)@.files, q) == file_bytes(old(fs)@.files, q),
        final(fs)@.log.len() >= old(fs)@.log.len(),
        final(fs)@.log.subrange(0, old(fs)@.log.len() as int) == old(fs)@.log,
{
    let ghost fsb = old(fs)@;
    let ghost dn_old = old_number@;
    let ghost dn_new = new_number@;
    let adir_new = attachment_dir(new_number.as_str(), refk.as_str());
    fs.create_dir(&adir_new);
    proof {
        lemma_create_dir_effect(fsb.dirs, adir_new@);
        lemma_doc_separation(dn_new, dn_old);
    }
    let mut new_paths: Vec<String> = Vec::new();
    let mut p: usize = 0;
    while p < nk
        invariant
            p <= nk,
            nk < u32::MAX,
            old_number@ == dn_old,
            new_number@ == dn_new,
            fs_wf(fs@),
            fs@.dirs == spec_create_dir(fsb.dirs, spec_attachment_dir(dn_new, refk@)),
            new_paths@.len() == p,
            forall|p2: int|
                0 <= p2 < p ==> (#[trigger] new_paths@[p2])@ == spec_page_path(
                    dn_new,
                    refk@,
                    (p2 + 1) as u32,
                ),
            forall|p2: int|
                0 <= p2 < p ==> has_file(
                    fs@.files,
                    #[trigger] spec_page_path(dn_new, refk@, (p2 + 1) as u32),
                ) && file_bytes(fs@.files, spec_page_path(dn_new, refk@, (p2 + 1) as u32))
                    == file_bytes(fsb.files, spec_page_path(dn_old, refk@, (p2 + 1) as u32)),
            forall|q: Seq<char>|
                !is_canon_path(q, dn_new, refk@, p as int) ==> #[trigger] has_file(fs@.files, q)
                    == has_file(fsb.files, q),
            forall|q: Seq<char>|
                !is_canon_path(q, dn_new, refk@, p as int) && has_file(fsb.files, q)
                    ==> #[trigger] file_bytes(fs@.files, q) == file_bytes(fsb.files, q),
            fs@.log.len() >= fsb.log.len(),
            fs@.log.subrange(0, fsb.log.len() as int) == fsb.log,
        decreases nk - p,
    {
        let oldp = page_file_path(old_number.as_str(), refk.as_str(), (p + 1) as u32);
        let newp = page_file_path(new_number.as_str(), refk.as_str(), (p + 1) as u32);
        proof {
            crate::page_path::lemma_paths_under_doc_dir(dn_old, refk@, (p + 1) as u32);
            crate::page_path::lemma_paths_under_doc_dir(dn_new, refk@, (p + 1) as u32);
            if is_canon_path(oldp@, dn_new, refk@, p as int) {
                let w = choose|w: int|
                    1 <= w <= p && oldp@ == #[trigger] spec_page_path(dn_new, refk@, w as u32);
                crate::page_path::lemma_paths_under_doc_dir(dn_new, refk@, w as u32);
                assert(false);
            }
            assert(has_file(fs@.files, oldp@) == has_file(fsb.files, oldp@));
        }
        let bytes = match fs.read_file(&oldp) {
            Some(b) => clone_bytes(b),
            None => {
                proof {
                    assert(false);
                }
                return new_paths;
            },
        };
        let ghost fs_before = fs@;
        fs.write_file(&newp, bytes);
        proof {
            lemma_write_file_effect(fs_before.files, newp@, file_bytes(fsb.files, oldp@));
            assert forall|p2: int|
                0 <= p2 < p + 1 implies has_file(
                fs@.files,
                #[trigger] spec_page_path(dn_new, refk@, (p2 + 1) as u32),
            ) && file_bytes(fs@.files, spec_page_path(dn_new, refk@, (p2 + 1) as u32))
                == file_bytes(fsb.files, spec_page_path(dn_old, refk@, (p2 + 1) as u32)) by {
                if p2 < p {
                    let pk = spec_page_path(dn_new, refk@, (p2 + 1) as u32);
                    if pk == newp@ {
                        lemma_page_path_injective_in_index(
                            dn_new,
                            refk@,
                            (p2 + 1) as u32,
                            (p + 1) as u32,
                        );
                        assert(false);
                    }
                    assert(has_file(fs_before.files, pk));
                }
            }
            assert forall|q: Seq<char>|
                !is_canon_path(q, dn_new, refk@, p + 1) implies #[trigger] has_file(fs@.files, q)
                == has_file(fsb.files, q) by {
                assert(q != newp@);
                assert(!is_canon_path(q, dn_new, refk@, p as int));
            }
            assert forall|q: Seq<char>|
                !is_canon_path(q, dn_new, refk@, p + 1) && has_file(fsb.files, q)
                implies #[trigger] file_bytes(fs@.files, q) == file_bytes(fsb.files, q) by {
                assert(q != newp@);
                assert(!is_canon_path(q, dn_new, refk@, p as int));
                assert(has_file(fs_before.files, q));
            }
            assert(fs@.log.subrange(0, fsb.log.len() as int) =~= fsb.log);
        }
        new_paths.push(newp);
        p = p + 1;
    }
    new_paths
}

/// The per-attachment facts that the gathered lists carry, under the
/// store's uniqueness: each listed id resolves to its row, the row is in
/// place on disk, and its names are usable.
proof fn lemma_gathered_facts(
    m0: StoreModel,
    fs0: crate::fs_state::FsModel,
    document_id: u32,
    ids: Seq<u32>,
    refs: Seq<String>,
    counts: Seq<usize>,
)
    requires
        store_wf(m0),
        has_doc(m0.documents, document_id),
        forall|i: int|
            0 <= i < m0.attachments.len() && (#[trigger] m0.attachments[i]).document_id
                == document_id ==> attachment_files_in_place(
                m0,
                fs0,
                m0.attachments[i].attachment_id,
            ),
        refs.len() == ids.len(),
        counts.len() == ids.len(),
        forall|j: int|
            0 <= j < ids.len() ==> att_row_witness(
                m0,
                document_id,
                #[trigger] ids[j],
                refs[j]@,
                m0.attachments.len() as int,
            ),
        forall|j: int|
            0 <= j < ids.len() ==> #[trigger] counts[j] == pages_of(m0.pages, ids[j]).len(),
    ensures
        forall|j: int|
            0 <= j < ids.len() ==> att_of(m0.attachments, #[trigger] ids[j]).reference_number
                == refs[j]@ && att_of(m0.attachments, ids[j]).document_id == document_id
                && has_att(m0.attachments, ids[j]) && attachment_files_in_place(m0, fs0, ids[j])
                && valid_name(refs[j]@) && att_doc_number(m0, ids[j]) == doc_of(
                m0.documents,
                document_id,
            ).document_number && att_page_count(m0, ids[j]) == counts[j] && counts[j] < u32::MAX,
{
    assert forall|j: int| 0 <= j < ids.len() implies att_of(
        m0.attachments,
        #[trigger] ids[j],
    ).reference_number == refs[j]@ && att_of(m0.attachments, ids[j]).document_id == document_id
        && has_att(m0.attachments, ids[j]) && attachment_files_in_place(m0, fs0, ids[j])
        && valid_name(refs[j]@) && att_doc_number(m0, ids[j]) == doc_of(
        m0.documents,
        document_id,
    ).document_number && att_page_count(m0, ids[j]) == counts[j] && counts[j] < u32::MAX by {
        let w = choose|w: int|
            0 <= w < m0.attachments.len() && (#[trigger] m0.attachments[w]).attachment_id
                == ids[j] && m0.attachments[w].document_id == document_id
                && m0.attachments[w].reference_number == refs[j]@;
        assert(has_att(m0.attachments, ids[j]));
        let v = att_index_of(m0.attachments, ids[j]);
        if v != w {
            assert(m0.attachments[v].attachment_id != m0.attachments[w].attachment_id);
        }
        assert(attachment_files_in_place(m0, fs0, m0.attachments[w].attachment_id));
        let u = doc_index_of(m0.documents, document_id);
        assert(m0.documents[u].document_id == document_id);
    }
}

/// The shape of both resources once every attachment has been rewritten
/// and the old document directory has been removed.
#[verifier::rlimit(100)]
proof fn lemma_doc_rename_final(
    m0: StoreModel,
    fs0: crate::fs_state::FsModel,
    fs_end: crate::fs_state::FsModel,
    fs_fin: crate::fs_state::FsModel,
    pages_fin: Seq<PageModel>,
    document_id: u32,
    dn_old: Seq<char>,
    dn_new: Seq<char>,
    ids: Seq<u32>,
    refs: Seq<String>,
    counts: Seq<usize>,
)
    requires
        store_wf(m0),
        valid_name(dn_old),
        valid_name(dn_new),
        dn_old != dn_new,
        refs.len() == ids.len(),
        counts.len() == ids.len(),
        forall|j: int|
            0 <= j < ids.len() ==> att_row_witness(
                m0,
                document_id,
                #[trigger] ids[j],
                refs[j]@,
                m0.attachments.len() as int,
            ),
        forall|w: int|
            0 <= w < m0.attachments.len() && (#[trigger] m0.attachments[w]).document_id
                == document_id ==> exists|j: int|
                0 <= j < ids.len() && #[trigger] ids[j] == m0.attachments[w].attachment_id,
        forall|j: int|
            0 <= j < ids.len() ==> pages_of(pages_fin, #[trigger] ids[j]).len() == counts[j] && (
            forall|p: int|
                0 <= p < counts[j] ==> (#[trigger] pages_of(pages_fin, ids[j])[p]).file_path
                    == spec_page_path(dn_new, refs[j]@, (p + 1) as u32)),
        forall|j: int| 0 <= j < ids.len() ==> #[trigger] counts[j] == pages_of(
            m0.pages,
            ids[j],
        ).len(),
        forall|q: Seq<char>|
            !under_dir(spec_document_dir(dn_new), q) ==> #[trigger] has_file(fs_end.files, q)
                == has_file(fs0.files, q),
        forall|q: Seq<char>|
            !under_dir(spec_document_dir(dn_new), q) && has_file(fs0.files, q)
                ==> #[trigger] file_bytes(fs_end.files, q) == file_bytes(fs0.files, q),
        forall|j: int, p: int|
            0 <= j < ids.len() && 0 <= p < counts[j] ==> has_file(
                fs_end.files,
                #[trigger] spec_page_path(dn_new, refs[j]@, (p + 1) as u32),
            ) && file_bytes(fs_end.files, spec_page_path(dn_new, refs[j]@, (p + 1) as u32))
                == file_bytes(fs0.files, spec_page_path(dn_old, refs[j]@, (p + 1) as u32)),
        has_dir(fs_end.dirs, spec_document_dir(dn_new)),
        forall|i: int, j: int| 0 <= i < j < fs_end.files.len() ==> (
        #[trigger] fs_end.files[i]).path != (#[trigger] fs_end.files[j]).path,
        forall|i: int, j: int| 0 <= i < j < fs_end.dirs.len() ==> fs_end.dirs[i] != fs_end.dirs[j],
        fs_fin.files == crate::fs_state::spec_remove_dir_files(
            fs_end.files,
            spec_document_dir(dn_old),
        ),
        fs_fin.dirs == crate::fs_state::spec_remove_dir_dirs(
            fs_end.dirs,
            spec_document_dir(dn_old),
        ),
    ensures
        forall|q: Seq<char>|
            !under_dir(spec_document_dir(dn_old), q) && !under_dir(spec_document_dir(dn_new), q)
                ==> #[trigger] has_file(fs_fin.files, q) == has_file(fs0.files, q),
        forall|q: Seq<char>|
            !under_dir(spec_document_dir(dn_old), q) && !under_dir(spec_document_dir(dn_new), q)
                && has_file(fs0.files, q) ==> #[trigger] file_bytes(fs_fin.files, q) == file_bytes(
                fs0.files,
                q,
            ),
        forall|q: Seq<char>|
            under_dir(spec_document_dir(dn_old), q) ==> !#[trigger] has_file(fs_fin.files, q),
        !has_dir(fs_fin.dirs, spec_document_dir(dn_old)),
        has_dir(fs_fin.dirs, spec_document_dir(dn_new)),
        forall|i2: int|
            0 <= i2 < m0.attachments.len() && (#[trigger] m0.attachments[i2]).document_id
                == document_id ==> pages_of(pages_fin, m0.attachments[i2].attachment_id).len()
                == pages_of(m0.pages, m0.attachments[i2].attachment_id).len() && (forall|p2: int|
                0 <= p2 < pages_of(m0.pages, m0.attachments[i2].attachment_id).len()
                    ==> (#[trigger] pages_of(
                    pages_fin,
                    m0.attachments[i2].attachment_id,
                )[p2]).file_path == spec_page_path(
                    dn_new,
                    m0.attachments[i2].reference_number,
                    (p2 + 1) as u32,
                )) && (forall|p2: int|
                0 <= p2 < pages_of(m0.pages, m0.attachments[i2].attachment_id).len() ==> has_file(
                    fs_fin.files,
                    #[trigger] spec_page_path(
                        dn_new,
                        m0.attachments[i2].reference_number,
                        (p2 + 1) as u32,
                    ),
                ) && file_bytes(
                    fs_fin.files,
                    spec_page_path(dn_new, m0.attachments[i2].reference_number, (p2 + 1) as u32),
                ) == file_bytes(
                    fs0.files,
                    spec_page_path(dn_old, m0.attachments[i2].reference_number, (p2 + 1) as u32),
                )),
{
    lemma_doc_separation(dn_old, dn_new);
    lemma_doc_separation(dn_new, dn_old);
    lemma_remove_dir_effect(fs_end.files, spec_document_dir(dn_old));
    lemma_remove_dir_dirs_effect(fs_end.dirs, spec_document_dir(dn_old));
    assert forall|j: int, p2: int|
        0 <= j < ids.len() && 0 <= p2 < counts[j] implies has_file(
        fs_fin.files,
        #[trigger] spec_page_path(dn_new, refs[j]@, (p2 + 1) as u32),
    ) && file_bytes(fs_fin.files, spec_page_path(dn_new, refs[j]@, (p2 + 1) as u32))
        == file_bytes(fs0.files, spec_page_path(dn_old, refs[j]@, (p2 + 1) as u32)) by {
        let pk = spec_page_path(dn_new, refs[j]@, (p2 + 1) as u32);
        crate::page_path::lemma_paths_under_doc_dir(dn_new, refs[j]@, (p2 + 1) as u32);
        assert(!under_dir(spec_document_dir(dn_old), pk));
        assert(has_file(fs_end.files, pk));
    }
    assert(has_dir(fs_fin.dirs, spec_document_dir(dn_new))) by {
        assert(spec_document_dir(dn_new) != spec_document_dir(dn_old));
        assert(!under_dir(spec_document_dir(dn_old), spec_document_dir(dn_new)));
    }
    assert forall|i2: int|
        0 <= i2 < m0.attachments.len() && (#[trigger] m0.attachments[i2]).document_id
            == document_id implies pages_of(pages_fin, m0.attachments[i2].attachment_id).len()
        == pages_of(m0.pages, m0.attachments[i2].attachment_id).len() && (forall|p2: int|
        0 <= p2 < pages_of(m0.pages, m0.attachments[i2].attachment_id).len()
            ==> (#[trigger] pages_of(
            pages_fin,
            m0.attachments[i2].attachment_id,
        )[p2]).file_path == spec_page_path(
            dn_new,
            m0.attachments[i2].reference_number,
            (p2 + 1) as u32,
        )) && (forall|p2: int|
        0 <= p2 < pages_of(m0.pages, m0.attachments[i2].attachment_id).len() ==> has_file(
            fs_fin.files,
            #[trigger] spec_page_path(
                dn_new,
                m0.attachments[i2].reference_number,
                (p2 + 1) as u32,
            ),
        ) && file_bytes(
            fs_fin.files,
            spec_page_path(dn_new, m0.attachments[i2].reference_number, (p2 + 1) as u32),
        ) == file_bytes(
            fs0.files,
            spec_page_path(dn_old, m0.attachments[i2].reference_number, (p2 + 1) as u32),
        )) by {
        let j = choose|j: int|
            0 <= j < ids.len() && #[trigger] ids[j] == m0.attachments[i2].attachment_id;
        let w = choose|w: int|
            0 <= w < m0.attachments.len() && (#[trigger] m0.attachments[w]).attachment_id
                == ids[j] && m0.attachments[w].document_id == document_id && m0.attachments[
                w
            ].reference_number == refs[j]@;
        if w != i2 {
            assert(m0.attachments[w].attachment_id != m0.attachments[i2].attachment_id);
        }
        assert(refs[j]@ == m0.attachments[i2].reference_number);
        assert(counts[j] == pages_of(m0.pages, m0.attachments[i2].attachment_id).len());
    }
}

/// The document-details commit.  Editing the type or comment rewrites
/// the row alone.  Renaming the document rewrites the row and then
/// rewrites every owned attachment's page files under the new document
/// number — file contents move untouched, the page rows are replaced
/// with the new canonical paths, and the old document directory with
/// everything below it is removed: a stale directory never survives a
/// successful rename.
#[verifier::rlimit(100)]
#[verifier::loop_isolation(true)]
pub fn commit_document_details(
    store: &mut MetaStore,
    fs: &mut FsState,
    document_id: u32,
    new_number: String,
    new_type: String,
    new_comment: String,
) -> (r: Result<(), SyncError>)
    requires
        store_wf(old(store)@),
        fs_wf(old(fs)@),
        has_doc(old(store)@.documents, document_id) ==> valid_name(
            doc_of(old(store)@.documents, document_id).document_number,
        ),
        has_doc(old(store)@.documents, document_id) ==> forall|i: int|
            0 <= i < old(store)@.attachments.len() && (
            #[trigger] old(store)@.attachments[i]).document_id == document_id
                ==> attachment_files_in_place(
                old(store)@,
                old(fs)@,
                old(store)@.attachments[i].attachment_id,
            ),
    ensures
        store_wf(final(store)@),
        fs_wf(final(fs)@),
        r matches Err(_) ==> final(store)@ == old(store)@ && final(fs)@ == old(fs)@,
        !has_doc(old(store)@.documents, document_id) ==> r == Err::<(), SyncError>(
            SyncError::Store(StoreError::NotFound),
        ),
        has_doc(old(store)@.documents, document_id) && !valid_name(new_number@) ==> r == Err::<
            (),
            SyncError,
        >(SyncError::InvalidName),
        has_doc(old(store)@.documents, document_id) && valid_name(new_number@) && new_number@
            == doc_of(old(store)@.documents, document_id).document_number ==> r == Ok::<
            (),
            SyncError,
        >(()) && final(fs)@ == old(fs)@ && final(store)@.documents == spec_update_document(
            old(store)@.documents,
            document_id,
            new_number@,
            new_type@,
            new_comment@,
        ) && final(store)@.attachments == old(store)@.attachments && final(store)@.pages == old(store)@.pages && final(store)@.next_page_id == old(store)@.next_page_id,
        has_doc(old(store)@.documents, document_id) && valid_name(new_number@) && new_number@
            != doc_of(old(store)@.documents, document_id).document_number && doc_page_total(
            old(store)@,
            document_id,
        ) > u32::MAX - old(store)@.next_page_id ==> r == Err::<(), SyncError>(
            SyncError::Store(StoreError::IdSpaceExhausted),
        ),
        has_doc(old(store)@.documents, document_id) && valid_name(new_number@) && new_number@
            != doc_of(old(store)@.documents, document_id).document_number && doc_page_total(
            old(store)@,
            document_id,
        ) <= u32::MAX - old(store)@.next_page_id && doc_number_taken_by_other(
            old(store)@.documents,
            document_id,
            new_number@,
        ) ==> r == Err::<(), SyncError>(SyncError::Store(StoreError::DuplicateIdentifier)),
        has_doc(old(store)@.documents, document_id) && valid_name(new_number@) && new_number@
            != doc_of(old(store)@.documents, document_id).document_number && doc_page_total(
            old(store)@,
            document_id,
        ) <= u32::MAX - old(store)@.next_page_id && !doc_number_taken_by_other(
            old(store)@.documents,
            document_id,
            new_number@,
        ) ==> r == Ok::<(), SyncError>(()),
        r == Ok::<(), SyncError>(()) && new_number@ != doc_of(
            old(store)@.documents,
            document_id,
        ).document_number ==> final(store)@.documents == spec_update_document(
            old(store)@.documents,
            document_id,
            new_number@,
            new_type@,
            new_comment@,
        ) && final(store)@.attachments == old(store)@.attachments && final(store)@.next_document_id == old(store)@.next_document_id && final(store)@.next_attachment_id
            == old(store)@.next_attachment_id && (forall|i: int|
            0 <= i < old(store)@.attachments.len() && (
            #[trigger] old(store)@.attachments[i]).document_id == document_id ==> pages_of(
                final(store)@.pages,
                old(store)@.attachments[i].attachment_id,
            ).len() == pages_of(
                old(store)@.pages,
                old(store)@.attachments[i].attachment_id,
            ).len() && (forall|p: int|
                0 <= p < pages_of(
                    old(store)@.pages,
                    old(store)@.attachments[i].attachment_id,
                ).len() ==> (#[trigger] pages_of(
                    final(store)@.pages,
                    old(store)@.attachments[i].attachment_id,
                )[p]).file_path == spec_page_path(
                    new_number@,
                    old(store)@.attachments[i].reference_number,
                    (p + 1) as u32,
                ))) && (forall|i: int|
            0 <= i < old(store)@.attachments.len() && (
            #[trigger] old(store)@.attachments[i]).document_id != document_id ==> pages_of(
                final(store)@.pages,
                old(store)@.attachments[i].attachment_id,
            ) == pages_of(old(store)@.pages, old(store)@.attachments[i].attachment_id)) && (
        forall|i: int, p: int|
            0 <= i < old(store)@.attachments.len() && (
            #[trigger] old(store)@.attachments[i]).document_id == document_id && 0 <= p
                < pages_of(old(store)@.pages, old(store)@.attachments[i].attachment_id).len()
                ==> has_file(
                final(fs)@.files,
                #[trigger] spec_page_path(
                    new_number@,
                    old(store)@.attachments[i].reference_number,
                    (p + 1) as u32,
                ),
            ) && file_bytes(
                final(fs)@.files,
                spec_page_path(
                    new_number@,
                    old(store)@.attachments[i].reference_number,
                    (p + 1) as u32,
                ),
            ) == file_bytes(
                old(fs)@.files,
                spec_page_path(
                    doc_of(old(store)@.documents, document_id).document_number,
                    old(store)@.attachments[i].reference_number,
                    (p + 1) as u32,
                ),
            )) && (forall|q: Seq<char>|
            under_dir(
                spec_document_dir(doc_of(old(store)@.documents, document_id).document_number),
                q,
            ) ==> !#[trigger] has_file(final(fs)@.files, q)) && !has_dir(
            final(fs)@.dirs,
            spec_document_dir(doc_of(old(store)@.documents, document_id).document_number),
        ) && has_dir(final(fs)@.dirs, spec_document_dir(new_number@)) && (forall|q: Seq<char>|
            !under_dir(
                spec_document_dir(doc_of(old(store)@.documents, document_id).document_number),
                q,
            ) && !under_dir(spec_document_dir(new_number@), q) ==> #[trigger] has_file(
                final(fs)@.files,
                q,
            ) == has_file(old(fs)@.files, q)) && (forall|q: Seq<char>|
            !under_dir(
                spec_document_dir(doc_of(old(store)@.documents, document_id).document_number),
                q,
            ) && !under_dir(spec_document_dir(new_number@), q) && has_file(old(fs)@.files, q)
                ==> #[trigger] file_bytes(final(fs)@.files, q) == file_bytes(old(fs)@.files, q)),
{
    let ghost m0 = old(store)@;
    let ghost fs0 = old(fs)@;
    let old_number = match document_number_of(store, document_id) {
        None => {
            return Err(SyncError::Store(StoreError::NotFound));
        },
        Some(n) => n,
    };
    if !is_valid_name(new_number.as_str()) {
        return Err(SyncError::InvalidName);
    }
    let ghost dn_old = doc_of(m0.documents, document_id).document_number;
    let ghost dn_new = new_number@;
    if old_number == new_number {
        match store.update_document_details(document_id, new_number, new_type, new_comment) {
            Err(e) => {
                return Err(SyncError::Store(e));
            },
            Ok(u) => u,
        };
        return Ok(());
    }

    let (att_ids, att_refs, att_counts) = gather_doc_attachments(store, document_id);
    proof {
        assert(gathered_distinct(att_ids@, att_refs@));
    }
    let ghost counts_seq = att_counts@.map_values(|c: usize| c as int);
    proof {
        assert forall|j: int| 0 <= j < counts_seq.len() implies counts_seq[j] == counts_of(
            m0,
            document_id,
        )[j] by {
            assert(att_counts@[j] == pages_of(m0.pages, att_ids@[j]).len());
            assert(att_ids@[j] == crate::read::atts_of(
                m0.attachments,
                document_id,
            )[j].attachment_id);
        }
        assert(counts_seq =~= counts_of(m0, document_id));
    }

    proof {
        lemma_gathered_facts(m0, fs0, document_id, att_ids@, att_refs@, att_counts@);
        assert forall|j: int| 0 <= j < att_counts@.len() implies #[trigger] att_counts@[j]
            < u32::MAX by {
            let idj = att_ids@[j];
            assert(att_page_count(m0, idj) == att_counts@[j]);
        }
        assert forall|i2: int|
            0 <= i2 < counts_seq.len() implies 0 <= #[trigger] counts_seq[i2] < u32::MAX by {
            assert(counts_seq[i2] == att_counts@[i2] as int);
        }
        lemma_doc_separation(dn_old, dn_new);
        lemma_doc_separation(dn_new, dn_old);
        lemma_doc_dirs_disjoint(dn_old, dn_new);
        lemma_doc_dirs_disjoint(dn_new, dn_old);
    }

    let room: u64 = (u32::MAX - store.next_page_id) as u64;
    if !check_page_room(&att_counts, room) {
        return Err(SyncError::Store(StoreError::IdSpaceExhausted));
    }

    match store.update_document_details(
        document_id,
        new_number.clone(),
        new_type,
        new_comment,
    ) {
        Err(e) => {
            return Err(SyncError::Store(e));
        },
        Ok(u) => u,
    };
    let ghost docs1 = store@.documents;

    let new_doc_dir = document_dir(new_number.as_str());
    fs.create_dir(&new_doc_dir);
    proof {
        lemma_create_dir_effect(fs0.dirs, new_doc_dir@);
    }

    let ghost next0 = m0.next_page_id;
    let mut k: usize = 0;
    while k < att_ids.len()
        invariant
            k <= att_ids@.len(),
            att_refs@.len() == att_ids@.len(),
            att_counts@.len() == att_ids@.len(),
            counts_seq == att_counts@.map_values(|c: usize| c as int),
            new_number@ == dn_new,
            old_number@ == dn_old,
            valid_name(dn_old),
            valid_name(dn_new),
            dn_old != dn_new,
            store_wf(m0),
            store_wf(store@),
            fs_wf(fs@),
            store@.documents == docs1,
            store@.attachments == m0.attachments,
            store@.next_document_id == m0.next_document_id,
            store@.next_attachment_id == m0.next_attachment_id,
            store@.next_page_id == next0 + sum_prefix(counts_seq, k as int),
            sum_prefix(counts_seq, counts_seq.len() as int) <= u32::MAX - next0,
            forall|i2: int|
                0 <= i2 < counts_seq.len() ==> 0 <= #[trigger] counts_seq[i2] < u32::MAX,
            forall|j: int|
                0 <= j < att_ids@.len() ==> att_of(
                    m0.attachments,
                    #[trigger] att_ids@[j],
                ).reference_number == att_refs@[j]@ && has_att(m0.attachments, att_ids@[j])
                    && valid_name(att_refs@[j]@) && att_counts@[j] == pages_of(
                    m0.pages,
                    att_ids@[j],
                ).len(),
            gathered_distinct(att_ids@, att_refs@),
            forall|j: int|
                0 <= j < att_ids@.len() ==> att_row_witness(
                    m0,
                    document_id,
                    #[trigger] att_ids@[j],
                    att_refs@[j]@,
                    m0.attachments.len() as int,
                ),
            forall|j: int|
                0 <= j < k ==> pages_of(store@.pages, #[trigger] att_ids@[j]).len()
                    == att_counts@[j] && (forall|p: int|
                    0 <= p < att_counts@[j] ==> (#[trigger] pages_of(
                        store@.pages,
                        att_ids@[j],
                    )[p]).file_path == spec_page_path(dn_new, att_refs@[j]@, (p + 1) as u32)),
            forall|j: int|
                k <= j < att_ids@.len() ==> pages_of(store@.pages, #[trigger] att_ids@[j])
                    == pages_of(m0.pages, att_ids@[j]),
            forall|i2: int|
                0 <= i2 < m0.attachments.len() && (
                #[trigger] m0.attachments[i2]).document_id != document_id ==> pages_of(
                    store@.pages,
                    m0.attachments[i2].attachment_id,
                ) == pages_of(m0.pages, m0.attachments[i2].attachment_id),
            forall|q: Seq<char>|
                !under_dir(spec_document_dir(dn_new), q) ==> #[trigger] has_file(fs@.files, q)
                    == has_file(fs0.files, q),
            forall|q: Seq<char>|
                !under_dir(spec_document_dir(dn_new), q) && has_file(fs0.files, q)
                    ==> #[trigger] file_bytes(fs@.files, q) == file_bytes(fs0.files, q),
            forall|j: int, p: int|
                0 <= j < k && 0 <= p < att_counts@[j] ==> has_file(
                    fs@.files,
                    #[trigger] spec_page_path(dn_new, att_refs@[j]@, (p + 1) as u32),
                ) && file_bytes(
                    fs@.files,
                    spec_page_path(dn_new, att_refs@[j]@, (p + 1) as u32),
                ) == file_bytes(fs0.files, spec_page_path(dn_old, att_refs@[j]@, (p + 1) as u32)),
            forall|x: Seq<char>|
                #[trigger] has_dir(fs@.dirs, x) == (has_dir(fs0.dirs, x) || x == spec_document_dir(
                    dn_new,
                ) || (exists|j: int|
                    0 <= j < k && x == spec_attachment_dir(dn_new, #[trigger] att_refs@[j]@))),
            fs@.log.len() >= fs0.log.len(),
            fs@.log.subrange(0, fs0.log.len() as int) == fs0.log,
            forall|j: int|
                0 <= j < att_ids@.len() ==> attachment_files_in_place(
                    m0,
                    fs0,
                    #[trigger] att_ids@[j],
                ) && att_doc_number(m0, att_ids@[j]) == dn_old,
        decreases att_ids.len() - k,
    {
        let aid = att_ids[k];
        let nk = att_counts[k];
        let ghost fs_pre = fs@;
        proof {
            lemma_doc_separation(dn_new, dn_old);
            assert forall|p: int|
                0 <= p < nk implies has_file(
                fs@.files,
                #[trigger] spec_page_path(dn_old, att_refs@[k as int]@, (p + 1) as u32),
            ) by {
                crate::page_path::lemma_paths_under_doc_dir(
                    dn_old,
                    att_refs@[k as int]@,
                    (p + 1) as u32,
                );
                assert(has_file(fs0.files, spec_page_path(
                    dn_old,
                    att_refs@[k as int]@,
                    (p + 1) as u32,
                )));
            }
        }
        let new_paths = rewrite_attachment_files(
            fs,
            &old_number,
            &new_number,
            &att_refs[k],
            nk,
        );
        proof {
            // Chain the helper's frames to the loop's frames against the
            // original filesystem.
            assert forall|q: Seq<char>|
                !under_dir(spec_document_dir(dn_new), q) implies #[trigger] has_file(fs@.files, q)
                == has_file(fs0.files, q) by {
                if is_canon_path(q, dn_new, att_refs@[k as int]@, nk as int) {
                    let w = choose|w: int|
                        1 <= w <= nk && q == #[trigger] spec_page_path(
                            dn_new,
                            att_refs@[k as int]@,
                            w as u32,
                        );
                    crate::page_path::lemma_paths_under_doc_dir(
                        dn_new,
                        att_refs@[k as int]@,
                        w as u32,
                    );
                    assert(false);
                }
                assert(has_file(fs@.files, q) == has_file(fs_pre.files, q));
            }
            assert forall|q: Seq<char>|
                !under_dir(spec_document_dir(dn_new), q) && has_file(fs0.files, q)
                implies #[trigger] file_bytes(fs@.files, q) == file_bytes(fs0.files, q) by {
                if is_canon_path(q, dn_new, att_refs@[k as int]@, nk as int) {
                    let w = choose|w: int|
                        1 <= w <= nk && q == #[trigger] spec_page_path(
                            dn_new,
                            att_refs@[k as int]@,
                            w as u32,
                        );
                    crate::page_path::lemma_paths_under_doc_dir(
                        dn_new,
                        att_refs@[k as int]@,
                        w as u32,
                    );
                    assert(false);
                }
                assert(has_file(fs_pre.files, q));
                assert(file_bytes(fs@.files, q) == file_bytes(fs_pre.files, q));
            }
            assert forall|j: int, p: int|
                0 <= j < k + 1 && 0 <= p < att_counts@[j] implies has_file(
                fs@.files,
                #[trigger] spec_page_path(dn_new, att_refs@[j]@, (p + 1) as u32),
            ) && file_bytes(fs@.files, spec_page_path(dn_new, att_refs@[j]@, (p + 1) as u32))
                == file_bytes(
                fs0.files,
                spec_page_path(dn_old, att_refs@[j]@, (p + 1) as u32),
            ) by {
                if j < k {
                    let idj = att_ids@[j];
                    let idk = att_ids@[k as int];
                    let pk = spec_page_path(dn_new, att_refs@[j]@, (p + 1) as u32);
                    if is_canon_path(pk, dn_new, att_refs@[k as int]@, nk as int) {
                        let w = choose|w: int|
                            1 <= w <= nk && pk == #[trigger] spec_page_path(
                                dn_new,
                                att_refs@[k as int]@,
                                w as u32,
                            );
                        lemma_ref_separation(dn_new, att_refs@[j]@, att_refs@[k as int]@);
                        crate::page_path::lemma_page_path_under_att_dir(
                            dn_new,
                            att_refs@[j]@,
                            (p + 1) as u32,
                        );
                        assert(false);
                    }
                    assert(has_file(fs@.files, pk) == has_file(fs_pre.files, pk));
                    assert(file_bytes(fs@.files, pk) == file_bytes(fs_pre.files, pk));
                } else {
                    let pk_old = spec_page_path(dn_old, att_refs@[k as int]@, (p + 1) as u32);
                    assert(!under_dir(spec_document_dir(dn_new), pk_old));
                    assert(file_bytes(fs_pre.files, pk_old) == file_bytes(fs0.files, pk_old));
                }
            }
            lemma_create_dir_effect(fs_pre.dirs, spec_attachment_dir(dn_new, att_refs@[k as int]@));
            assert forall|x: Seq<char>|
                #[trigger] has_dir(fs@.dirs, x) == (has_dir(fs0.dirs, x) || x == spec_document_dir(
                    dn_new,
                ) || (exists|j: int|
                    0 <= j < k + 1 && x == spec_attachment_dir(
                        dn_new,
                        #[trigger] att_refs@[j]@,
                    ))) by {
                if x == spec_attachment_dir(dn_new, att_refs@[k as int]@) {
                    assert(has_dir(fs@.dirs, x));
                } else {
                    if has_dir(fs@.dirs, x) && !(has_dir(fs0.dirs, x) || x == spec_document_dir(
                        dn_new,
                    )) {
                        let j = choose|j: int|
                            0 <= j < k && x == spec_attachment_dir(
                                dn_new,
                                #[trigger] att_refs@[j]@,
                            );
                        assert(0 <= j < k + 1 && x == spec_attachment_dir(dn_new, att_refs@[j]@));
                    }
                }
            }
            assert(fs@.log.subrange(0, fs0.log.len() as int) =~= fs0.log);
        }

        let ghost pre_store = store@;
        let res = store.replace_attachment_pages(aid, new_paths);
        proof {
            assert(has_att(pre_store.attachments, aid)) by {
                let w = att_index_of(m0.attachments, aid);
                assert(pre_store.attachments[w].attachment_id == aid);
            }
            assert(sum_prefix(counts_seq, k + 1) == sum_prefix(counts_seq, k as int)
                + counts_seq[k as int]);
            lemma_sum_prefix_mono(counts_seq, k + 1, counts_seq.len() as int);
            assert(res is Ok);
            assert(new_paths@.map_values(|s2: String| s2@) =~= canonical_paths(
                dn_new,
                att_refs@[k as int]@,
                nk as int,
            ));
            let fresh = spec_new_pages(
                canonical_paths(dn_new, att_refs@[k as int]@, nk as int),
                pre_store.next_page_id,
                aid,
            );
            assert forall|j: int|
                0 <= j < k + 1 implies pages_of(store@.pages, #[trigger] att_ids@[j]).len()
                == att_counts@[j] && (forall|p2: int|
                0 <= p2 < att_counts@[j] ==> (#[trigger] pages_of(
                    store@.pages,
                    att_ids@[j],
                )[p2]).file_path == spec_page_path(
                    dn_new,
                    att_refs@[j]@,
                    (p2 + 1) as u32,
                )) by {
                if j == k {
                    let keep = |p2: PageModel| p2.attachment_id == aid;
                    let dropped = pre_store.pages.filter(
                        |p2: PageModel| p2.attachment_id != aid,
                    );
                    Seq::filter_distributes_over_add(dropped, fresh, keep);
                    assert forall|i3: int|
                        0 <= i3 < dropped.len() implies !keep(#[trigger] dropped[i3]) by {
                        pre_store.pages.lemma_filter_pred(
                            |p2: PageModel| p2.attachment_id != aid,
                            i3,
                        );
                    }
                    lemma_filter_none(dropped, keep);
                    assert forall|i3: int|
                        0 <= i3 < fresh.len() implies keep(#[trigger] fresh[i3]) by {}
                    lemma_filter_all(fresh, keep);
                    assert(pages_of(store@.pages, aid) =~= fresh);
                } else {
                    lemma_pages_of_other_after_replace(
                        pre_store.pages,
                        aid,
                        canonical_paths(dn_new, att_refs@[k as int]@, nk as int),
                        pre_store.next_page_id,
                        att_ids@[j],
                    );
                }
            }
            assert forall|j: int|
                k + 1 <= j < att_ids@.len() implies pages_of(store@.pages, #[trigger] att_ids@[j])
                == pages_of(m0.pages, att_ids@[j]) by {
                lemma_pages_of_other_after_replace(
                    pre_store.pages,
                    aid,
                    canonical_paths(dn_new, att_refs@[k as int]@, nk as int),
                    pre_store.next_page_id,
                    att_ids@[j],
                );
            }
            assert forall|i2: int|
                0 <= i2 < m0.attachments.len() && (
                #[trigger] m0.attachments[i2]).document_id != document_id implies pages_of(
                store@.pages,
                m0.attachments[i2].attachment_id,
            ) == pages_of(m0.pages, m0.attachments[i2].attachment_id) by {
                if m0.attachments[i2].attachment_id == aid {
                    let w = choose|w: int|
                        0 <= w < m0.attachments.len() && (
                        #[trigger] m0.attachments[w]).attachment_id == att_ids@[k as int]
                            && m0.attachments[w].document_id == document_id
                            && m0.attachments[w].reference_number == att_refs@[k as int]@;
                    if w != i2 {
                        assert(m0.attachments[w].attachment_id != m0.attachments[
                            i2
                        ].attachment_id);
                    }
                    assert(false);
                }
                lemma_pages_of_other_after_replace(
                    pre_store.pages,
                    aid,
                    canonical_paths(dn_new, att_refs@[k as int]@, nk as int),
                    pre_store.next_page_id,
                    m0.attachments[i2].attachment_id,
                );
            }
        }
        k = k + 1;
    }

    let old_doc_dir = document_dir(old_number.as_str());
    let ghost fs_end = fs@;
    fs.remove_dir_all(&old_doc_dir);
    proof {
        lemma_doc_rename_final(
            m0,
            fs0,
            fs_end,
            fs@,
            store@.pages,
            document_id,
            dn_old,
            dn_new,
            att_ids@,
            att_refs@,
            att_counts@,
        );
    }
    Ok(())
}

} // verus!
