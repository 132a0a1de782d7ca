//! Derive support for lvv vector points: the attribute grammar, the field
//! shapes and the payload plan behind `VectorDatabase` and
//! `VectorDatabaseItem`, with their contracts.

pub mod attributes;
pub mod grammar;
pub mod input;
pub mod rename_rule;
pub mod text;
pub mod types;
pub mod vector_database;
pub mod vector_database_item;

