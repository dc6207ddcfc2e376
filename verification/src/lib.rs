//! Extraction of DMARC aggregate reports from e-mail messages: the attachments
//! that carry them, the reports they hold, and what the mailbox watcher does
//! with each message.

pub mod text;
pub mod mime;
pub mod archive;
pub mod extract;
pub mod report;
pub mod mailbox;
pub mod pages;
