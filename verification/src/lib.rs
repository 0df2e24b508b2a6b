//! Verified core of an Erlang/OTP-style actor framework.
use vstd::prelude::*;

pub mod actor;
pub mod actors;
pub mod application;
pub mod child_handle;
pub mod error;
pub mod gen_server;
pub mod gen_server_registry;
pub mod gen_statem;
pub mod ids;
pub mod link;
pub mod message;
pub mod monitor;
pub mod pg;
pub mod pid;
pub mod process_table;
pub mod registry;
pub mod seqs;
pub mod supervisor;
pub mod sync;
pub mod sys;
pub mod text;
pub mod threads;
pub mod time;

verus! {

} // verus!
