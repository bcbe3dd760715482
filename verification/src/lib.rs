//! A verified pull-based XML event translator.
//!
//! The crate wraps a streaming XML tokenizer and re-emits its raw tokens as a
//! higher-level event sequence: `StartElement` / `EndElement` / `Characters`,
//! with qualified names parsed, entity references decoded, and namespace
//! scopes tracked. Self-closing elements are expanded into an adjacent
//! start/end pair, empty text runs are suppressed, and any error ends the
//! sequence permanently.

pub mod events;
pub mod text;
pub mod qname;
pub mod scope;
pub mod translator;
