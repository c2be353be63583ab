//! Compilation engine of a visual firewall designer.
//!
//! A directed graph of filter, NAT and branching nodes is vetted edit by edit
//! (no cycles, inferred port directions), expanded into every source-to-terminal
//! condition path, and each path is lowered to firewall chains and rules.

pub mod collector;
pub mod cycle_guard;
pub mod data_type;
pub mod direction;
pub mod error;
pub mod evaluator;
pub mod export;
pub mod graph;
pub mod graph_state;
pub mod id_type;
pub mod lowering;
pub mod nft;
pub mod node_data;
pub mod node_template;
pub mod node_template_iter;
pub mod plugin;
pub mod predicate;
pub mod text;
pub mod value_type;
