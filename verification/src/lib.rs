pub mod api;
pub mod app;
