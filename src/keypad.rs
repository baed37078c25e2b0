//! The cost of typing codes through a chain of robot-driven keypads.
pub mod code;
pub mod cost;
pub mod layout;
pub mod paths;

pub use code::{
    code_complexity, code_presses_of, code_value_of, is_valid_code, solve, KeypadError,
};
pub use cost::{calc_key_costs, calc_level_costs, directional_paths};
pub use layout::{DirKey, Layout};
pub use paths::get_paths;
