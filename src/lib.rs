//! Avatar storage: opaque picture tokens, resized variants and access control.
//!
//! - `visibility`: the ordered visibility levels.
//! - `name`: owner hashes and the tokens that name stored pictures.
//! - `resize`: validation of uploads and their resized variants.
//! - `storage`: backends, size classes and the record of backend calls.
//! - `operations`: saving, removing and moving all variants of a picture.
//! - `retriever`: serving a picture to a requester who may see it.
//! - `sender`: uploads, changes of level and removal of an owner's pictures.
pub mod name;
pub mod operations;
pub mod resize;
pub mod retriever;
pub mod sender;
pub mod settings;
pub mod storage;
pub mod text;
pub mod visibility;
