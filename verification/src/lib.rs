//! An explorer for reports of boundary violations between the packs of a
//! project: the aggregation of raw violation records, the tree of pack paths,
//! and the state of the panels that browse them.

pub mod action;
pub mod aggregate;
pub mod app;
pub mod classify;
pub mod components;
pub mod configuration;
pub mod dependents;
pub mod filter;
pub mod handler;
pub mod menu;
pub mod name_set;
pub mod pack_order;
pub mod packs;
pub mod path_key;
pub mod pks;
pub mod pks_tree_node;
pub mod shared;
pub mod sorting;
pub mod str_map;
pub mod tally;
pub mod text;
pub mod tree_laws;
pub mod ui;
