//! Core simulation of a small arcade game: a player dodges falling obstacles
//! and shoots projectiles at them, accumulating a score that is compared
//! against a persisted high score.
//!
//! All geometry is carried in whole millipixels (one thousandth of a screen
//! pixel), so that per-frame movement `speed * dt` is exact: speeds are in
//! pixels per second, frame times in milliseconds, and their product lands in
//! millipixels. Rendering, input polling, frame pacing and the high-score
//! file live outside this crate; the library exposes the per-frame world
//! update, the game-state machine and the high-score codec.

pub mod score;
pub mod shape;
pub mod sim;
pub mod state;
pub mod world;
