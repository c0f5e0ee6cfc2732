//! The operations of the editor, each on the whole state: the store and the
//! edit history.

pub mod data;
pub mod editing;
pub mod query;
