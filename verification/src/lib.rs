pub mod date;
pub mod document;
pub mod builder;
pub mod config;
pub mod error;
pub mod front_matter;
pub mod inclusion;
pub mod line_range;
pub mod output;
pub mod page;
pub mod preprocess;
pub mod project;
pub mod renderer;
pub mod text;
pub mod theme;
pub mod toml_data;
