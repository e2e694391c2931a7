pub mod errors;
pub mod tokens;
pub mod parse;
