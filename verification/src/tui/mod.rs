//! The interactive picker: its state, its key handling, the fuzzy search, the
//! loading of components, and what the screen shows.
pub mod fuzzy;
pub mod app;
pub mod event;
pub mod runner;
pub mod view;
