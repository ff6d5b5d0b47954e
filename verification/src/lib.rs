//! The mail-triage engine: the message model, the rule language and its
//! classifier, the configuration model and the pure decisions of a run.

pub mod text;
pub mod version;
pub mod yaml;
pub mod message;
pub mod vendors;
pub mod config;
pub mod accounts;
pub mod folders;
pub mod run;
pub mod auth;
pub mod numbers;
pub mod pattern;
pub mod rules;
pub mod mailbox;
