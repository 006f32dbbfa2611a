//! Analysis of modules: which parts of a program can be split off.
pub mod compute;
pub mod debug;
pub mod debug_laws;
pub mod emit;
pub mod entity_set;
pub mod module_roots;
pub mod modules;
pub mod name_laws;
pub mod names;
pub mod parse;
pub mod parse_laws;
pub mod plan_laws;
pub mod root_laws;
pub mod roots;
pub mod split_laws;
pub mod split_plan;
pub mod split_point;
pub mod split_steps;
pub mod step_laws;
pub mod trampoline_laws;
pub mod trampolines;
