pub mod diagnostics;
pub mod fields;
pub mod tags;
pub mod metadata;
pub mod symbol_model;
pub mod symbols;
pub mod archetypes;
pub mod modes;
pub mod semantic_model;
pub mod semantic;
