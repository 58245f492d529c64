pub mod app;
pub mod content;
pub mod errors;
pub mod field;
pub mod files;
pub mod forms;
pub mod geometry;
pub mod inline;
pub mod key;
pub mod laws;
pub mod llm;
pub mod model;
pub mod order;
pub mod render;
pub mod settings;
pub mod style;
pub mod syntax;
pub mod table;
pub mod text;
pub mod time;
pub mod view;
pub mod watch;
