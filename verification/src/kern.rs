pub mod copy_delay;
pub mod fahrplan_generator;
pub mod generate_fahrplan;
pub mod shared;
pub mod schedule;
pub mod schedules;
