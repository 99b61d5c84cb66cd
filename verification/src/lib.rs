//! Accounts, todo lists and the menu-driven session that ties them together.
//!
//! The crate is organised leaves first:
//!
//! * [`error`]: the failures that operations report;
//! * [`task`]: tasks and the index-addressed edits of a task sequence;
//! * [`codec`]: the text form in which a task sequence is stored in one column;
//! * [`credential`]: password hashing and verification;
//! * [`store`]: the accounts and todo-list relations with their operations;
//! * [`menu`]: bounded numeric menu selections;
//! * [`session`]: the state machine that sequences the menus.

pub mod codec;
pub mod credential;
pub mod error;
pub mod menu;
pub mod session;
pub mod store;
pub mod task;
