//! Celestial lighting for a tile-growth board game: a rotating sun that casts
//! shadows across a square board, and an orbiting moon whose light is relayed
//! by moonstones.

pub mod enums;
pub mod sky;
pub mod cells;
pub mod spot;
pub mod geometry;
pub mod board;
pub mod shadow;
pub mod moonlight;
pub mod laws;

pub use board::Board;
pub use enums::{Animal, Fertility, MoonDirection, PieceType, SunDirection, TreeSize};
pub use geometry::get_adjacent_coords;
pub use sky::{Moon, MoonError, Sun};
pub use spot::{BoardSpot, Tree};
