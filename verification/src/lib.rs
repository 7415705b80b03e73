//! Timetable tooling for CY Tech's Celcat calendars: date arithmetic, event
//! description parsing, storage encoding and timetable image layout.

pub mod auth;
pub mod calendar;
pub mod celcat;
pub mod config;
pub mod date;
pub mod db;
pub mod header_map;
pub mod layout;
pub mod num;
pub mod patterns;
pub mod string;
pub mod templates;
pub mod text;
