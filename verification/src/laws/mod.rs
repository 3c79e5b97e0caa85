//! What the operations are for, in terms of what goes in and what comes
//! out: the laws that a reader of the results can rely on, whatever the
//! functions in between are called.

pub mod answers;
pub mod commands;
pub mod create;
pub mod expansion;
pub mod lifecycle;
pub mod models;
pub mod profile;
pub mod shape;
pub mod words;
