pub mod dublin_core;
