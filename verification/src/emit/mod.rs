//! Emission of modules.
pub mod body_relocs;
pub mod copy_relocs;
pub mod generate;
pub mod memory_layout;
pub mod modify;
pub mod object;
pub mod places;
pub mod plan;
pub mod readiness;
pub mod reading;
pub mod relocation;
pub mod sections;
pub mod sizes;
pub mod written;
