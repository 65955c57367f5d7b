pub mod text;
pub mod utf8;
pub mod utf8_span;
pub mod search;
pub mod bitmap;
pub mod modified;
pub mod tui;
pub mod app;
pub mod edit;
pub mod find;
pub mod browser;
pub mod render;
pub mod bytepat;
pub mod keys;
pub mod nav;
pub mod colors;
pub mod input;
pub mod mouse;
pub mod config;
pub mod status;
