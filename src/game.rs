//! Game-level configuration around the streaming engine.
use vstd::prelude::*;
use crate::vec2::{UVec2, WorldPos};
use crate::bundle::{ChunkedTilemap, ConfigError, config_error};

verus! {

/// The phases of the game: assets load, the world is initialised, then
/// play goes on.
#[derive(Clone, Copy, Debug, PartialEq, Eq, Hash, Structural)]
pub enum GameStates {
    Load,
    Init,
    Game,
}

/// Marks the ground layer among the tilemaps.
#[derive(Clone, Copy, Debug, PartialEq, Eq, Structural)]
pub struct GroundTilemap;

/// Marks the layer above the ground (trees and the like) among the tilemaps.
#[derive(Clone, Copy, Debug, PartialEq, Eq, Structural)]
pub struct OverGroundTilemap;

/// The square tile and chunk sizes that every layer of the game shares.
#[derive(Clone, Copy, Debug, PartialEq, Eq, Structural)]
pub struct AppConfig {
    /// World units per tile, on each axis.
    pub tile_size: i32,
    /// Tiles per chunk, on each axis.
    pub chunk_size: i32,
}

impl AppConfig {
    /// A tilemap layer with this configuration's square sizes, the radius
    /// `range` and the center `center`; a size below one is refused like an
    /// empty one.
    pub fn tilemap(&self, range: i32, center: WorldPos) -> (r: Result<ChunkedTilemap, ConfigError>)
        ensures
            self.chunk_size <= 0 ==> r == Err::<ChunkedTilemap, ConfigError>(ConfigError::EmptyChunkSize),
            self.chunk_size > 0 && self.tile_size <= 0 ==> r == Err::<ChunkedTilemap, ConfigError>(
                ConfigError::EmptyTileSize,
            ),
            self.chunk_size > 0 && self.tile_size > 0 ==> {
                let cs = UVec2 { x: self.chunk_size as u32, y: self.chunk_size as u32 };
                let ts = UVec2 { x: self.tile_size as u32, y: self.tile_size as u32 };
                match r {
                    Ok(t) => {
                        &&& config_error(cs, ts, range as int, center@).is_none()
                        &&& t@.wf()
                        &&& t@.chunk_size == cs
                        &&& t@.tile_size == ts
                        &&& t@.range == range
                        &&& t@.center == center@
                        &&& t@.resident == Set::<(int, int)>::empty()
                    },
                    Err(e) => config_error(cs, ts, range as int, center@) == Some(e),
                }
            },
    {
        if self.chunk_size <= 0 {
            return Err(ConfigError::EmptyChunkSize);
        }
        if self.tile_size <= 0 {
            return Err(ConfigError::EmptyTileSize);
        }
        let cs = UVec2 { x: self.chunk_size as u32, y: self.chunk_size as u32 };
        let ts = UVec2 { x: self.tile_size as u32, y: self.tile_size as u32 };
        ChunkedTilemap::new(cs, ts, range, center)
    }
}

} // verus!
