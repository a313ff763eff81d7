//! Random password generation under character-class and exclusion constraints.
//!
//! The library builds a character pool from a set of [`Controls`], draws
//! candidate passwords from it and accepts the first one that holds a
//! character of every requested class.
pub mod alphabet;
pub mod args;
pub mod controls;
pub mod random;
pub mod sampler;

pub use alphabet::{build_pool, class_members, contains_char, CharClass};
pub use args::{classify, parse_args, parse_lowered, str_eq, ArgError, Flag, Parsed};
pub use controls::Controls;
pub use sampler::{attempt, check, is_feasible, pick, rpg, sample, GenError, MAX_ATTEMPTS};
