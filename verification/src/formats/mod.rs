pub mod extensions;
pub mod feeds;
pub mod html;
