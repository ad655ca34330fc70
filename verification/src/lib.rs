//! A personal archive of dated entries and maps of content, kept in a
//! hierarchical store, with lazily loaded entities and a backup protocol.

pub mod about;
pub mod archive;
pub mod document;
pub mod entry;
pub mod export;
pub mod field;
pub mod keys;
pub mod list;
pub mod logger;
pub mod moc;
pub mod parse;
pub mod search;
pub mod since;
pub mod sort;
pub mod store;
pub mod uncommit;
