pub mod text;
pub mod line_facts;
pub mod editor;
pub mod todo;
pub mod labels;
pub mod store;
pub mod repo;
pub mod commands;
pub mod cli;
