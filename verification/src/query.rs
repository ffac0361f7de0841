pub mod analysis;
pub mod parser;
pub mod plan;
pub mod schema;
pub mod words;
