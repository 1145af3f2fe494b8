//! In-memory core of a small terminal chat: a user registry and a message
//! log, with register-or-login, scoped message queries and keyword deletion.

pub mod handlers;
pub mod models;
pub mod storage;
pub mod text;
pub mod utils;
