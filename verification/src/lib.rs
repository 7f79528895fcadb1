//! Core logic of an S3 browser for the terminal: object paths, the file
//! tree of a bucket, transfer planning, and the key-driven state of each
//! screen. Terminal drawing, the network and the keyring live outside.

pub mod paths;
pub mod tree_node;
pub mod arena;
pub mod listing;
pub mod tree;
pub mod tree_build;
pub mod tree_first;
pub mod tree_widget;
pub mod transfer;
pub mod events;
pub mod profile;
pub mod selection;
pub mod buckets;
pub mod size_text;
pub mod progress;
pub mod input;
pub mod text_input;
pub mod profile_info;
pub mod profiles_widget;
pub mod main_menu;
pub mod app;
