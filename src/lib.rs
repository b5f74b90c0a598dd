//! Verified core of a deduplicating backup datastore: the data-blob
//! envelope, chunk and index formats, the catar/pxar archive checks, the
//! extraction state machine, the prune policy and the garbage collector's
//! decisions.

pub mod apt;
pub mod blob;
pub mod bytes;
pub mod catar;
pub mod crypt;
pub mod export;
pub mod ext;
pub mod extract;
pub mod gc;
pub mod index;
pub mod logrotate;
pub mod prune;
pub mod reader;
pub mod registry;
pub mod store;
pub mod types;
