//! The command language of the attendance tool, as plain data.  The
//! shell around the library parses the command line into these values
//! and dispatches on them.

use vstd::prelude::*;

verus! {

/// A parsed invocation of the attendance tool.
#[derive(Debug)]
pub struct Cli {
    pub command: Command,
}

/// The commands the attendance tool understands.
#[derive(Debug)]
pub enum Command {
    /// Add a new student to the roster.
    AddStudent(AddStudentArgs),
    /// Remove a student from the roster.
    RemoveStudent(StudentIdArg),
    /// Mark a student as excused for the current week.
    MarkExcused(StudentIdArg),
    /// Mark a student as attended for the current week.
    MarkAttended(StudentIdArg),
    /// Mark multiple students as attended from a file.
    BulkMarkAttended(FilePathArg),
    /// List students with unexcused absences.
    ListUnexcused,
    /// Email students with unexcused absences.
    EmailUnexcused,
    /// Display the current week.
    ShowWeek,
    /// Reset attendance data for the current week.
    ResetWeek,
    /// Increment to the next week.
    BumpWeek,
    /// Set the current week number.
    SetWeek(WeekArg),
    /// Show aggregate absence statistics.
    AggregateStats,
    /// Flag students at risk due to multiple absences.
    FlagAtRisk,
}

/// The arguments for adding one student.
#[derive(Debug)]
pub struct AddStudentArgs {
    pub andrew_id: String,
    pub name: String,
    pub email: String,
}

/// A single student id argument.
#[derive(Debug)]
pub struct StudentIdArg {
    pub andrew_id: String,
}

/// A single file path argument.
#[derive(Debug)]
pub struct FilePathArg {
    pub file_path: String,
}

/// A single week number argument.
#[derive(Debug)]
pub struct WeekArg {
    pub week_number: u32,
}

} // verus!
