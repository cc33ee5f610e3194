//! Book catalog and review service core: the domain model, ISBN-13
//! validation, the compact binary wire format used by the review API, and the
//! request handling decisions of that API.
pub mod codec;
pub mod isbn;
pub mod models;
pub mod service;
pub mod store;
pub mod text;
pub mod wire;
pub mod wire_laws;
