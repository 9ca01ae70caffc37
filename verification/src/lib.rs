//! The logic of a small updater for tools published as release assets.

pub mod archive;
pub mod config;
pub mod failure;
pub mod gather;
pub mod install;
pub mod order;
pub mod paths;
pub mod pattern;
pub mod render;
pub mod select;
pub mod source;
pub mod template;
pub mod text;
pub mod tours;
pub mod update;
