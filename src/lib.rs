//! Ordered trees stored flat, in depth-first order, with parent and sibling
//! links recovered by index arithmetic.
pub mod neighbors;
pub mod links;
pub mod navigator;
pub mod nav_builder;
pub mod values;
pub mod tree;
pub mod builder;
pub mod laws;

pub use builder::Builder;
pub use navigator::Navigator;
pub use neighbors::Neighbors;
pub use tree::{FlatTree, TreeData};
pub use values::VecValues;
