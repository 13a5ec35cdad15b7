//! A schema-free reader for UPF pseudopotential documents: a flat stream of
//! markup events is folded, with an explicit stack, into a tree of named
//! blocks.

pub mod assoc;
pub mod builder;
pub mod event;
pub mod laws;
pub mod model;
pub mod reader;
pub mod text;
pub mod tree;

pub use crate::model::{Block, UPFData};
pub use crate::reader::ParseError;
