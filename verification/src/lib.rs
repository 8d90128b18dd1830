//! The decision logic of a browser without a rendering engine.

pub mod bytecode_cache;
pub mod challenge;
pub mod cli;
pub mod cookies;
pub mod events;
pub mod fetches;
pub mod html;
pub mod interact;
pub mod json;
pub mod json_text;
pub mod mcp;
pub mod navigation;
pub mod outcome;
pub mod page_code;
pub mod policy;
pub mod policy_list;
pub mod prefit;
pub mod rpc;
pub mod scripts;
pub mod settle;
pub mod text;
pub mod urls;
