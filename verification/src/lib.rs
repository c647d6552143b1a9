//! Composition engine for a tree of API description documents: references
//! between documents are resolved and merged, and the resolved documents are
//! indexed by document, by endpoint and by the source files they depend on.

pub mod codec;
pub mod db;
pub mod fields;
pub mod index;
pub mod merge;
pub mod notice;
pub mod pattern;
pub mod reference;
pub mod repair;
pub mod resolve;
pub mod text;
pub mod value;
