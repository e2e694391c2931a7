pub mod errors;
pub mod state;
pub mod byte_tokens;
pub mod tokens;
pub mod full_tokens;
pub mod old_tokens;
