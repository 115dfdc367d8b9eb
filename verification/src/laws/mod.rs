//! What the parts of the library are for, stated of their inputs and results.

pub mod cards;
pub mod grading;
pub mod layouts;
pub mod modules;
pub mod planes;
pub mod programs;
pub mod promises;
pub mod records;
pub mod routing;
pub mod simulation;
pub mod texts;
pub mod traffic;
pub mod viewing;
pub mod vm;
pub mod wires;
pub mod worlds;
