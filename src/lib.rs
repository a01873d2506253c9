//! Batch organisation of media libraries: path segment sanitising, priority
//! merging of tag items into a canonical record, path synthesis, tag
//! transplanting, and the duplicate-resolution selection engine.

pub mod text;
pub mod sanitize;
pub mod parts;
pub mod transplant;
pub mod state;
pub mod select;
pub mod opts;
