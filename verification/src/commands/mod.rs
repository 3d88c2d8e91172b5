//! The commands, each as a function of what it was given to what it prints
//! and what it leaves in the store.

pub mod cat_file;
pub mod clone;
pub mod commit_tree;
pub mod hash_object;
pub mod init;
pub mod ls_tree;
pub mod write_tree;
