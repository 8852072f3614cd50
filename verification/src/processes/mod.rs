//! The process table: sort preference, grouping by name, row layout and the
//! selection it drives.
pub mod sort;
pub mod actions;
pub mod grouping;
pub mod rows;
pub mod properties;
pub mod table;
pub mod sections;
