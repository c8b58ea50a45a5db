//! Turn-based tactical battles on a tile grid: movement and attack ranges,
//! shortest paths, wait-time turn scheduling, per-unit action queues, combat
//! resolution and the messages that keep two players' battles in step.

pub mod pos;
pub mod grid;
pub mod neighbors;
pub mod range;
pub mod path;
pub mod unit;
pub mod battle;
pub mod protocol;
pub mod scheduler;
pub mod actions;
pub mod movement;
pub mod combat;
pub mod tick;
pub mod cursor;
