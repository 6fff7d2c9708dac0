//! Listing and presentation of versioned objects: one entry shape for
//! object summaries and file records, field-based stable ordering, and
//! fixed-format output lines.

pub mod text;
pub mod version;
pub mod time;
pub mod listing;
pub mod render;
pub mod order;
pub mod sort;
pub mod command;
