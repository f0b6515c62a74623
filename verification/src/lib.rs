//! Layout primitives of a typesetting engine: operands of the compiled
//! evaluator, alignments, corners, regions, frames, margins and the cell grid
//! resolution of grids and tables, and the collection of pages, each with a
//! verified contract.

pub mod align;
pub mod collect;
pub mod columns;
pub mod container;
pub mod content;
pub mod corners;
pub mod flow;
pub mod frame;
pub mod geom;
pub mod grid;
pub mod inline;
pub mod margin;
pub mod operands;
pub mod pad;
pub mod page;
pub mod pages;
pub mod place;
pub mod regions;
pub mod repeat;
pub mod stack;
pub mod transform;
pub mod visualize;
