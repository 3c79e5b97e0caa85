//! Disposable podman boxes for unsupervised workloads.
//!
//! A box is a container whose layout comes from its image and whose policy
//! comes from one profile. This crate holds what is decided about boxes:
//!
//! - `config`: the schema of a profile, the expansion of its values against
//!   layers of variables (`expand`, `vars`, `table`), and its shape
//!   (`validate`);
//! - `driver`: the arguments that podman is run with, what its answers mean
//!   (`json`), and the work that takes several calls: creating, removing
//!   and entering a box;
//! - `cli`: the decisions of the command line; `new_box`: the whole way from
//!   a policy and a command line to a new box; `visit`: the whole way to a
//!   session, a command or a removal, on a box that is there.
//!
//! It does no input or output of its own. The program around it reads files
//! and the environment and runs podman; it hands over what it found and
//! does what it is told.
//!
//! Contracts speak of text as sequences of characters (`text`, `lists`,
//! `order`, `paths`). A function that can fail says exactly when it does,
//! and with which message (`error`, `results`). The laws that hold across
//! functions stand, with their proofs, at the end of each module; those that
//! say what a whole operation comes to, in terms of what goes in and what
//! comes out, stand in `laws`.

pub mod cli;
pub mod config;
pub mod driver;
pub mod error;
pub mod expand;
pub mod json;
pub mod laws;
pub mod lists;
pub mod new_box;
pub mod order;
pub mod paths;
pub mod results;
pub mod table;
pub mod text;
pub mod validate;
pub mod vars;
pub mod visit;
