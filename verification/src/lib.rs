//! Hookrunner: the discrete rules of a small arena shooter, proved with Verus.
//!
//! The library holds the integer, boolean and text logic of the game: nickname
//! validation, the mip-atlas layout, the compiled-map byte formats, the match
//! scoreboard and clock, and the discrete half of the per-tick player
//! simulation (health, death, dash charges, jumps, weapon cadence, map
//! triggers).  Geometry and floating-point physics live outside the library.
pub mod arena;
pub mod build_check;
pub mod client;
pub mod combat;
pub mod health;
pub mod level;
pub mod loading;
pub mod match_state;
pub mod matches;
pub mod mipmaps;
pub mod movement;
pub mod native;
pub mod nickname;
pub mod protocol;
pub mod scoreboard;
pub mod text;
pub mod title;
pub mod weapon;
pub mod web;
