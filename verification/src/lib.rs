pub mod collapse;
pub mod ingest;
pub mod laws;
pub mod render;
pub mod resolve;
pub mod state;
pub mod tree;
