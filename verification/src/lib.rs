pub mod app;
pub mod model;
pub mod store;
pub mod text;
pub mod ui;
