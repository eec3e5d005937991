pub mod api;
pub mod assoc;
pub mod graph_isomorphism;
pub mod model;
pub mod query_core;
