//! A verified product registry: durable storage of product records behind a
//! memory pool of named regions, with payload validation, seller-only
//! mutation rights, and create/read/update/delete service operations.
pub mod backend;
pub mod codec;
pub mod laws;
pub mod service;
pub mod store;
pub mod text;
pub mod types;
pub mod validation;
