//! Startup configuration merging and multi-backend source resolution for a tile
//! server: the argument pool, the environment view, the database option merger,
//! unique source identifiers and the sorted source registry.

pub mod arguments;
pub mod cog;
pub mod config;
pub mod environment;
pub mod error;
pub mod ids;
pub mod number;
pub mod one_or_many;
pub mod order;
pub mod pg;
pub mod sources;
pub mod text;
