//! Skipping: what is pressed, closed and advanced without the player, and when.

pub mod dialog;
pub mod inspire;
pub mod result;
pub mod shop;
pub mod skill;
pub mod train;
