//! Local-first undo for AI coding agents.

pub mod attribution;
pub mod cli;
pub mod daemon;
pub mod failure;
pub mod hook;
pub mod ignoring;
pub mod image;
pub mod ipc;
pub mod json;
pub mod outside;
pub mod parts;
pub mod paths;
pub mod restore;
pub mod rows;
pub mod session;
pub mod store;
pub mod table;
pub mod text;
pub mod timeline;
