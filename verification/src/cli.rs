//! The commands of the command line and the files they name.

use vstd::prelude::*;

verus! {

/// What to do with snapshot files around a run.
pub enum Commands {
    /// Start a fresh world and save it to `filename` after the run.
    Save { filename: String },
    /// Load the world from `filename` and do not save it.
    Load { filename: String },
    /// Load the world from one file and save it to another.
    LoadAndSave { input_filename: String, output_filename: String },
}

/// The parsed command line.
pub struct Cli {
    pub command: Option<Commands>,
}

/// The file to load from and the file to save to that a command names.
pub open spec fn command_files(command: Option<Commands>) -> (Option<String>, Option<String>) {
    match command {
        Some(Commands::Save { filename }) => (None, Some(filename)),
        Some(Commands::Load { filename }) => (Some(filename), None),
        Some(Commands::LoadAndSave { input_filename, output_filename }) => (
            Some(input_filename),
            Some(output_filename),
        ),
        None => (None, None),
    }
}

/// Splits a command into its input file and its output file.
pub fn parse_command(cli_command: Option<Commands>) -> (files: (Option<String>, Option<String>))
    ensures
        files == command_files(cli_command),
{
    if let Some(command) = cli_command {
        match command {
            Commands::Save { filename } => (None, Some(filename)),
            Commands::Load { filename } => (Some(filename), None),
            Commands::LoadAndSave { input_filename, output_filename } => (
                Some(input_filename),
                Some(output_filename),
            ),
        }
    } else {
        (None, None)
    }
}

} // verus!
