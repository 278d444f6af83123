pub mod web;
