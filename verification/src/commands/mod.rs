pub mod complete;
pub mod label;
pub mod list;
pub mod new;
pub mod show;
