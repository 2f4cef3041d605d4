//! Verified core of an IRC log viewer: line-range parsing, slug
//! generation, a capped output buffer, log-line parsing, channel-tree
//! lookup, a regex-backed search engine, tool dispatch, the agent
//! session protocol loop, and admission control.

pub mod admission;
pub mod buffer;
pub mod channels;
pub mod config;
pub mod linespec;
pub mod parser;
pub mod pattern;
pub mod render;
pub mod search;
pub mod session;
pub mod slug;
pub mod tools;
pub mod text;
pub mod web;
