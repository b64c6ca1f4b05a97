//! Conversion rules, queue model and text layouts of a universal file converter.
pub mod app;
pub mod config;
pub mod converters;
pub mod number;
pub mod number_laws;
pub mod outside;
pub mod path_laws;
pub mod paths;
pub mod text;
pub mod text_laws;
pub mod ui;
