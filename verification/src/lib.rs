//! Place Capability Graph analysis: the data structures and algorithms of the
//! borrow part of the graph, the coupling of abstraction edges, function
//! shapes, loop analysis and the helpers of the command-line tools.

pub mod abstraction;
pub mod actions;
pub mod aliases;
pub mod ancestors;
pub mod annotations;
pub mod bin_utils;
pub mod body_annotations;
pub mod capability_actions;
pub mod consolidate;
pub mod coupling;
pub mod coupling_groups;
pub mod driver;
pub mod edge_kind;
pub mod edges;
pub mod error;
pub mod fn_outlives;
pub mod frozen;
pub mod function_shape;
pub mod graph;
pub mod join;
pub mod lifetime;
pub mod loop_usage;
pub mod loop_join;
pub mod loops;
pub mod mir;
pub mod node;
pub mod packing;
pub mod place;
pub mod place_usage;
pub mod region;
pub mod search;
pub mod shape_build;
pub mod text;
pub mod ty;
pub mod unblock;
pub mod uf;
pub mod unique;
pub mod upload;
pub mod validity;
