//! One card on the list screens: either a document or an attachment,
//! together with the theme it is drawn in.

use vstd::prelude::*;

use crate::attachment::Attachment;
use crate::config::LocalTheme;
use crate::document::Document;

verus! {

/// One list card.  Exactly one of the two payloads is meant to be set;
/// the getters demand the payload they name.
pub struct DataCard {
    pub document: Option<Document>,
    pub attachment: Option<Attachment>,
    pub theme: LocalTheme,
}

impl DataCard {
    /// Builds a card around a document or an attachment.
    pub fn new(document: Option<Document>, attachment: Option<Attachment>, theme: LocalTheme) -> (c:
        DataCard)
        ensures
            c.document == document,
            c.attachment == attachment,
            c.theme == theme,
    {
        DataCard { document, attachment, theme }
    }

    /// The document this card shows.
    pub fn get_document(&self) -> (r: &Document)
        requires
            self.document is Some,
        ensures
            self.document == Some(*r),
    {
        match &self.document {
            Some(d) => d,
            None => unreached(),
        }
    }

    /// The attachment this card shows.
    pub fn get_attachment(&self) -> (r: &Attachment)
        requires
            self.attachment is Some,
        ensures
            self.attachment == Some(*r),
    {
        match &self.attachment {
            Some(a) => a,
            None => unreached(),
        }
    }
}

} // verus!
