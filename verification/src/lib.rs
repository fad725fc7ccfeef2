//! Text processing, comment-tree layout and reader state for a terminal
//! news reader of Hacker News and Lobsters.

pub mod chars;
pub mod model;
pub mod text;
pub mod hn;
pub mod feed;
pub mod layout;
pub mod reader;
pub mod input;
pub mod spans;
pub mod rails;
pub mod posts;
pub mod selection;
pub mod laws;
pub mod content;
pub mod rules;
pub mod linked;
pub mod facts;
