pub mod text;
pub mod compress;
pub mod order;
pub mod models;
pub mod time;
pub mod pattern;
pub mod filter;
pub mod parser;
pub mod analyzer;
pub mod output;
pub mod selection;
pub mod generate;
