//! A small note store: the component of a note-taking service that owns the
//! note records, assigns identifiers and timestamps, and serves
//! list/get/create/update/delete against one consistent collection.

pub mod laws;
pub mod models;
pub mod store;
