pub mod atom;
pub mod rss;
