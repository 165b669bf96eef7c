use vstd::prelude::*;

pub mod candy_machine;
pub mod config_init;
pub mod config_lines;
pub mod encoding;
pub mod laws;
pub mod layout;
pub mod marks;
pub mod readings;
pub mod state;

verus! {

} // verus!
