//! The commands of the command line.
use std::path::PathBuf;
use vstd::prelude::*;

verus! {

/// The parsed command line.
pub struct Cli {
    pub command: CliCommand,
}

/// What the command line asks for.
pub enum CliCommand {
    /// Generate a timetable from a configuration file.
    GenerateFahrplan(GenerateFahrplanArgs),
    /// Apply or generate a schedule.
    Schedule(CliScheduleCommand),
}

/// The schedule commands.
pub enum CliScheduleCommand {
    Apply(ApplyScheduleArgs),
    Generate(GenerateScheduleArgs),
}

/// Copy trains and delay them by given time
#[derive(Debug)]
pub struct GenerateFahrplanArgs {
    /// Path to config file
    pub config: PathBuf,
}

/// Updates times in specified .trn files according to provided schedule file
#[derive(Debug)]
pub struct ApplyScheduleArgs {
    /// Path to schedule file
    pub schedule: PathBuf,
    /// .trn files to modify
    pub trn_files: Vec<PathBuf>,
}

/// Generates a schedule file based on the given .trn file
#[derive(Debug)]
pub struct GenerateScheduleArgs {
    /// Path to trn file
    pub trn: String,
    /// Path where to create the schedule file
    pub schedule: String,
}

} // verus!
