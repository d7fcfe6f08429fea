//! A chunk-streaming engine for effectively infinite 2D tile worlds.
//!
//! The world is cut into rectangular chunks of tiles. Around a moving
//! viewpoint, the chunks within a square radius are kept resident: those that
//! enter the radius are materialized, those that leave it are released.
pub mod vec2;
mod seq_facts;
pub mod chunks;
pub mod spawn_around;
pub mod chunk_set;
pub mod bundle;
pub mod spawn_chunk;
pub mod despawn_outrange;
pub mod fill_chunk;
pub mod plugin;
pub mod game;

pub use bundle::{ChunkedTilemap, ConfigError, TilemapChunk};
pub use plugin::{ChunkedTilemapPlugin, CycleEvents};
pub use game::{AppConfig, GameStates, GroundTilemap, OverGroundTilemap};
pub use vec2::{IVec2, UVec2, WorldPos};
