//! A bilingual dictionary engine: entry normalization, language pairs,
//! import rows, query plans, ranking and completion.

pub mod calls;
pub mod entry;
pub mod error;
pub mod import;
pub mod pair;
pub mod rank;
pub mod schema;
pub mod search;
pub mod text;
