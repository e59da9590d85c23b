//! An episodic memory engine for coding agents: it stores short lessons
//! learned (episodes), retrieves the most relevant ones for a new task by
//! embedding similarity, refines their utility from feedback and by
//! spreading it to similar episodes, and prunes safe duplicates.
//!
//! Utilities are integers in thousandths; embeddings are unit vectors
//! quantized to thousandths. Similarity is `SIM_SCALE` less the squared
//! distance, which orders as cosine does and peaks only at identical vectors.

pub mod episode;
pub mod feedback;
pub mod ident;
pub mod laws;
pub mod propagation;
pub mod rank;
pub mod retrieval;
pub mod review;
pub mod stats;
pub mod store;
pub mod vector;
