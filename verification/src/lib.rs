pub mod app;
pub mod entry;
pub mod input;
pub mod ops;
pub mod pane;
pub mod paths;
pub mod text;
pub mod ui;
pub mod units;
