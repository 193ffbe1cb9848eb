//! Parsing core of a UPnP/DLNA media-control client.
//!
//! The crate turns the XML documents that networked media devices hand out
//! (device descriptors, service descriptions, SOAP and eventing response
//! bodies) into plain records. Every function is verified with Verus against
//! a mathematical model of the document: a sequence of reader events for the
//! response bodies, a labelled tree for the descriptors.
//!
//! Tokenizing XML, building the element tree and resolving URL references
//! are left to the `xml`, `elementtree` and `url` crates. What those crates
//! return is named by uninterpreted functions of the document text, and the
//! contracts in this crate are stated over those names.

pub mod error;
pub mod events;
pub mod laws;
pub mod loader;
pub mod parser;
pub mod text;
pub mod tree;
pub mod types;
pub mod url;

pub use crate::error::{Field, UpnpError};
