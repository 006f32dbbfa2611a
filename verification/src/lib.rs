//! Shared object model of WebAssembly modules: typed indices, linking metadata, memory and table
//! layouts, relocation and emission.
//!
//! The library is free of I/O: it computes on plain values and byte vectors, and its contracts say
//! what every computation returns.
pub mod analysis;
pub mod emit;
pub mod helpers;
pub mod index;
pub mod layouts;
pub mod linkage;
pub mod raw;
pub mod sorting;
pub mod tables;
pub mod text;
pub mod typed;

