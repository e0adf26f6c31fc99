//! The decisions behind an encrypted folder that asks which program may open
//! its files.

pub mod asking;
pub mod attributes;
pub mod control;
pub mod copy_tree;
pub mod digest;
pub mod errno;
pub mod gate_args;
pub mod handles;
pub mod import;
pub mod import_args;
pub mod inode_table;
pub mod install;
pub mod manifest;
pub mod mount_helper;
pub mod passthrough_fs;
pub mod path;
pub mod path_map;
pub mod policy;
pub mod process_info;
pub mod text;
pub mod whitelist;
