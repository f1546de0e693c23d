//! A vote on pull requests: each one that comes in is put to the public for
//! a fixed time, and is then merged or closed as the votes say.

pub mod bot;
pub mod decimal;
pub mod diff;
pub mod diff_laws;
pub mod diff_text;
mod outside;
pub mod pull_request;
pub mod server;
pub mod server_laws;
pub mod text;

pub use pull_request::{Direction, PullRequest};
