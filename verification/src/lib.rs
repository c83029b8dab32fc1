//! Verified core of a terminal launcher for annotated shell scripts.

pub mod app;
pub mod arg_form;
pub mod catalog;
pub mod panels;
pub mod metadata;
pub mod order;
pub mod text;
pub mod view;
