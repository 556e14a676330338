//! IPlan, a planner of projects, lists and tasks with timers, as a library:
//! the rows of its tables, an in-memory store that holds them, the queries
//! and updates that the application runs on them, the text that it shows for
//! durations, and the decisions that its windows and its reminders make.

pub mod application;
pub mod db;
mod i18n;
pub mod text;
pub mod views;
