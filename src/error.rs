use vstd::prelude::*;

verus! {

/// The failures that the library reports.
pub enum ProgramError {
    /// A directory of the job tree could not be listed.
    FileNotFound { path: String },
    /// A job directory holds no file with the requested extension, or cannot be listed.
    LogNotFound { dir: String, ending: String },
    /// No job of the index has this identifier.
    UnknownJob { id: String },
    /// The search pattern is not a valid regular expression.
    InvalidPattern { pattern: String },
}

/// The text shown to a user for an error.
pub open spec fn error_message(e: ProgramError) -> Seq<char> {
    match e {
        ProgramError::FileNotFound { path } => "Could not find file "@ + path@ + "."@,
        ProgramError::LogNotFound { dir, ending } => "Could not find log in "@ + dir@
            + " with ending "@ + ending@ + "."@,
        ProgramError::UnknownJob { id } => "No job with id "@ + id@ + " was found."@,
        ProgramError::InvalidPattern { pattern } => "Invalid search pattern "@ + pattern@ + "."@,
    }
}

impl ProgramError {
    /// One descriptive line for the user.
    pub fn message(&self) -> (r: String)
        ensures
            r@ == error_message(*self),
    {
        match self {
            ProgramError::FileNotFound { path } => {
                let mut r = String::from_str("Could not find file ");
                r.append(path.as_str());
                r.append(".");
                r
            },
            ProgramError::LogNotFound { dir, ending } => {
                let mut r = String::from_str("Could not find log in ");
                r.append(dir.as_str());
                r.append(" with ending ");
                r.append(ending.as_str());
                r.append(".");
                r
            },
            ProgramError::UnknownJob { id } => {
                let mut r = String::from_str("No job with id ");
                r.append(id.as_str());
                r.append(" was found.");
                r
            },
            ProgramError::InvalidPattern { pattern } => {
                let mut r = String::from_str("Invalid search pattern ");
                r.append(pattern.as_str());
                r.append(".");
                r
            },
        }
    }
}

} // verus!
