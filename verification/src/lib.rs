//! Verified core of a small book-creation service.
//!
//! One inbound request carries a JSON description of a book; the service
//! assigns it a fresh identifier, maps it to a key-value store record, and
//! answers with the enriched book. This crate holds everything that can be
//! reasoned about: body validation, the JSON wire format, identifier
//! assignment, the record mapping, and response shaping. The surrounding
//! binary performs the network I/O and the actual store write.

pub mod bytes;
pub mod resource;
pub mod json;
pub mod record;
pub mod handler;
