//! A directed graph over small integer node handles: the query interface that
//! any representation offers, and one representation kept as a flat edge list.

pub mod cursor;
pub mod edge_list;
pub mod graph;
pub mod history;
pub mod model;
pub mod node;
