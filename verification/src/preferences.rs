//! The validated preferences a session runs with. Parsing command-line
//! flags and environment variables happens outside this crate; the
//! library receives the outcome as plain values.

use crate::status_line::StatusLine;
use vstd::prelude::*;

verus! {

/// Everything the session needs to know about how it was invoked.
#[derive(Debug)]
pub struct Preferences {
    /// Print the help text and exit.
    pub help: bool,
    /// Print the version and exit.
    pub version: bool,
    /// Respect gitignore rules while walking the tree.
    pub gitignore: bool,
    /// The directory the search starts from.
    pub starting_point: String,
    /// What the status line shows.
    pub status_line: StatusLine,
    /// Where to log, if anywhere.
    pub log_file: Option<String>,
    /// The initial query text.
    pub query: String,
    /// The command invoked on the chosen path.
    pub exec_command: String,
}

impl Default for Preferences {
    /// The defaults: search from the current directory respecting
    /// gitignore, show the absolute path on the status line, start with an
    /// empty query, and hand the chosen file to `cat`.
    fn default() -> (r: Self)
        ensures
            r.help == false,
            r.version == false,
            r.gitignore == true,
            r.starting_point@ == "."@,
            r.status_line == StatusLine::Absolute,
            r.log_file is None,
            r.query@ == ""@,
            r.exec_command@ == "cat"@,
    {
        Preferences {
            help: false,
            version: false,
            gitignore: true,
            starting_point: ".".to_owned(),
            status_line: StatusLine::Absolute,
            log_file: None,
            query: "".to_owned(),
            exec_command: "cat".to_owned(),
        }
    }
}

} // verus!
