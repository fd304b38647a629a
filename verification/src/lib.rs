//! Verified core of the workspace server kernel: the rules that decide what a
//! member may see and do, the operations on workspaces, offices, rooms and
//! their members that run under those rules with rollback on refusal, the
//! dispatch of the commands that ask for them, the integrity of the
//! workspace tree and the layout of a configured structure, the per-client
//! rate limiter, and the small decision functions around them.

pub mod text;
pub mod response;
pub mod lookup;
pub mod ice;
pub mod connection;
pub mod secret_eq;
pub mod strmap;
pub mod seqs;
pub mod tree;
pub mod describe;
pub mod rate_limiter;
pub mod permissions;
pub mod user;
pub mod domain;
pub mod store;
pub mod transaction;
pub mod kernel;
pub mod group_access;
pub mod workspace_ops;
pub mod entity_ops;
pub mod members;
pub mod member_admin;
pub mod commands;
pub mod queries;
pub mod server_ops;
pub mod setup;
pub mod structure;
pub mod profile;
pub mod display_name;
pub mod session;
pub mod requests;
pub mod group_messages;
