//! A verified core for a local document-management tool.
//!
//! Documents own attachments; an attachment owns an ordered set of page
//! images that live both as rows in a relational store and as encoded
//! files on disk.  The modules here model both stores, derive the canonical
//! on-disk layout, and keep the two in agreement through every edit.
#![verifier::loop_isolation(false)]

pub mod attachment;
pub mod attachment_page;
pub mod config;
pub mod data_card;
pub mod document;
pub mod main_menu;
pub mod page_path;
pub mod seq_facts;
pub mod store;
pub mod fs_state;
pub mod codec;
pub mod export;
pub mod ingest;
pub mod read;
pub mod scan;
pub mod sync;
