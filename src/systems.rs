//! The gameplay systems: each reads the store and the resources, writes
//! component values in place, and queues structural edits.
pub mod attached;
pub mod collision;
pub mod enemy;
pub mod input;
pub mod physics;
pub mod render;
pub mod shooting;
pub mod spawning;
pub mod title;
