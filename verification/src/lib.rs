use vstd::prelude::*;

pub mod bs;
pub mod cursor;
pub mod xml;
pub mod text;
pub mod formats;
pub mod rss;
pub mod new_rss;
pub mod interface;
pub mod html;

verus! {
} // verus!
