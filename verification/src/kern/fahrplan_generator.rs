//! The first way of generating timetables: routes joined from whole train files.
pub mod generate_zug;
