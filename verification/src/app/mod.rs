pub mod command;
pub mod controller;
pub mod direction;
pub mod text;
