pub mod text;
pub mod pacman;
pub mod order;
pub mod categories;
pub mod app;
pub mod layout;
