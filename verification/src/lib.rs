//! A small wiki engine: article keys and paths, front matter, content hashes
//! and the decisions of the compile loop.

pub mod article;
pub mod db;
pub mod watch;
pub mod compiler;
pub mod host;
pub mod text;
pub mod path;
pub mod front;
pub mod digest;
pub mod markdown;
pub mod yaml;
