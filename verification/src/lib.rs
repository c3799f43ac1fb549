//! Core logic of a keyboard-driven application launcher: a fuzzy-match
//! ranking engine that orders candidate lists as the user types, and an
//! arithmetic expression evaluator behind the calculator view.

use vstd::prelude::*;

pub mod apps;
pub mod calculator;
pub mod config;
pub mod desktop_entry;
pub mod drun;
pub mod files;
pub mod module;
pub mod serworse;
pub mod sorting;
pub mod text;
pub mod websearch;
pub mod widglets;

verus! {

} // verus!
