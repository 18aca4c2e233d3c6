//! grund: citations, declarations and the checks that keep them in sync.
pub mod agents;
pub mod api;
pub mod cases;
pub mod checker;
pub mod grammar;
pub mod init_plan;
pub mod comment_blocks;
pub mod links;
pub mod model;
pub mod order;
pub mod propose;
pub mod pattern;
pub mod queries;
pub mod render;
pub mod rewrite;
pub mod scaffold;
pub mod scanner;
pub mod show;
pub mod text;
pub mod tree;
pub mod workspace;
