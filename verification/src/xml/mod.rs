pub mod byte_token;
pub mod errors;
pub mod tokens;
pub mod new_tokens;
