//! Puzzle solutions over grids, keypads and small machines, each with its contract proved.
//! `keypad` prices codes typed through a chain of robot-driven keypads.
pub mod calibration;
pub mod claw;
pub mod computer;
pub mod disk;
pub mod keypad;
pub mod point;
pub mod reports;
pub mod robots;
pub mod schematic;
pub mod secret;
