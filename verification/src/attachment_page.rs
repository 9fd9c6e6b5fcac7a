//! One page of an attachment as the read path hands it to callers: the
//! row's identifiers plus the image bytes found at the page's file.

use vstd::prelude::*;

verus! {

/// One displayable page.  An unreadable or missing file leaves the image
/// empty — the consistency fault is detectable, and the read path never
/// stops on it.
pub struct AttachmentPage {
    pub page_id: u32,
    pub image: Vec<u8>,
    pub file_path: String,
    pub attachment_id: u32,
}

impl AttachmentPage {
    /// Builds one page from its row and whatever bytes the page's file
    /// yielded; `None` stands for a missing or unreadable file.
    pub fn new(page_id: u32, file_path: String, attachment_id: u32, bytes: Option<Vec<u8>>) -> (p:
        AttachmentPage)
        ensures
            p.page_id == page_id,
            p.file_path@ == file_path@,
            p.attachment_id == attachment_id,
            match bytes {
                Some(b) => p.image@ == b@,
                None => p.image@ == Seq::<u8>::empty(),
            },
    {
        let image = match bytes {
            Some(b) => b,
            None => Vec::new(),
        };
        AttachmentPage { page_id, image, file_path, attachment_id }
    }

    /// The image bytes read for this page.
    pub fn image(&self) -> (r: &Vec<u8>)
        ensures
            r@ == self.image@,
    {
        &self.image
    }

    /// The path the page's file lives at.
    pub fn file_path(&self) -> (r: String)
        ensures
            r@ == self.file_path@,
    {
        self.file_path.clone()
    }
}

} // verus!
