use vstd::prelude::*;

pub mod span;
pub mod text;
pub mod rule;
pub mod rules;
pub mod snapshot;
pub mod local_resolution;
pub mod includes;
pub mod constants;
pub mod symbols;
pub mod semantic;
pub mod tag_surfaces;
pub mod diagnostics;
pub mod syntax;
pub mod extract;
pub mod workspace;
