//! An ordered map backed by a left-leaning red-black tree.

pub mod order;
pub mod ordered_map;
pub mod laws;
mod node;
mod facts;
mod rotate;
mod search;
mod insert;
mod remove;

pub use ordered_map::OrderedMap;
