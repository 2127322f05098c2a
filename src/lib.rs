//! The simulation core of a small arcade shooter: an entity table with
//! optional component columns, a deferred command buffer applied at
//! barriers, and the gameplay systems run by a staged schedule.
pub mod audio;
pub mod commands;
pub mod components;
pub mod geom;
pub mod messages;
mod random;
pub mod rendering;
pub mod schedules;
pub mod state;
pub mod systems;
pub mod timer;
pub mod world;
