//! A single-user time tracker: projects and time entries kept in SQLite,
//! a timer session with persistence-backed recovery, aggregation of tracked
//! time, and the text shown by a system-tray icon.

pub mod calendar;
pub mod db;
pub mod aggregate;
pub mod tray;
pub mod session;
pub mod summary;
pub mod laws;
