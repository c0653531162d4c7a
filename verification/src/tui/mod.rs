pub mod app;
pub mod control;
pub mod envelope;
pub mod event;
pub mod flags;
pub mod load;
pub mod ui;
