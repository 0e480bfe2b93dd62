use std::io::Write;

use vstd::prelude::*;
use vstd::string::StringExecFns;

use crate::text::{dec_digits, u64_to_string};

verus! {

/// Everything that can go wrong during a command.  Paths and underlying
/// error descriptions are carried as plain text.
#[derive(Clone, Debug, PartialEq)]
pub enum ProjectError {
    MissingName,
    UnknownArgument(String),
    InvalidProjectDirectory,
    FailedToCreateFolder(String, String),
    FailedToInitGit(String),
    FailedToCreateFile(String, String),
    CannotOpenFile(String, String),
    FailedToRunProcess(String, Option<i32>),
}

/// The decimal rendering of a signed number.
pub open spec fn int_digits(n: int) -> Seq<char> {
    if n < 0 {
        seq!['-'] + dec_digits((-n) as nat)
    } else {
        dec_digits(n as nat)
    }
}

/// Render a signed number in decimal.
pub fn i32_to_string(n: i32) -> (r: String)
    ensures
        r@ == int_digits(n as int),
{
    let wide = n as i64;
    if wide < 0 {
        let mut out = String::from_str("-");
        let digits = u64_to_string((-wide) as u64);
        out.append(digits.as_str());
        proof {
            reveal_strlit("-");
            assert(out@ =~= int_digits(n as int));
        }
        out
    } else {
        let out = u64_to_string(wide as u64);
        out
    }
}

/// The message a user reads for each error.
pub open spec fn spec_message(e: ProjectError) -> Seq<char> {
    match e {
        ProjectError::MissingName => "error: please provide a suitable project name"@,
        ProjectError::UnknownArgument(a) => "error: unknown argument '"@ + a@ + "'"@,
        ProjectError::InvalidProjectDirectory =>
            "error: current directory doesn't contain a CMakeMake.toml"@,
        ProjectError::FailedToCreateFolder(name, err) => "error: failed to create folder '"@
            + name@ + "' with error: "@ + err@,
        ProjectError::FailedToInitGit(err) => "error: failed to init git repo with error: "@
            + err@,
        ProjectError::FailedToCreateFile(file, err) => "error: failed to create file '"@ + file@
            + "' with error: "@ + err@,
        ProjectError::CannotOpenFile(file, err) => "error: failed to open file '"@ + file@
            + "' with error: "@ + err@,
        ProjectError::FailedToRunProcess(process, code) => "error: run process '"@ + process@
            + "' exited with "@ + (match code {
            Some(c) => "exit code "@ + int_digits(c as int),
            None => "an unknown error code"@,
        }),
    }
}

impl ProjectError {
    /// The message a user reads for this error.
    pub fn message(&self) -> (r: String)
        ensures
            r@ == spec_message(*self),
    {
        match self {
            ProjectError::MissingName => String::from_str(
                "error: please provide a suitable project name",
            ),
            ProjectError::UnknownArgument(a) => {
                let mut out = String::from_str("error: unknown argument '");
                out.append(a.as_str());
                out.append("'");
                proof {
                    assert(out@ =~= spec_message(*self));
                }
                out
            },
            ProjectError::InvalidProjectDirectory => String::from_str(
                "error: current directory doesn't contain a CMakeMake.toml",
            ),
            ProjectError::FailedToCreateFolder(name, err) => {
                let mut out = String::from_str("error: failed to create folder '");
                out.append(name.as_str());
                out.append("' with error: ");
                out.append(err.as_str());
                proof {
                    assert(out@ =~= spec_message(*self));
                }
                out
            },
            ProjectError::FailedToInitGit(err) => {
                let mut out = String::from_str("error: failed to init git repo with error: ");
                out.append(err.as_str());
                proof {
                    assert(out@ =~= spec_message(*self));
                }
                out
            },
            ProjectError::FailedToCreateFile(file, err) => {
                let mut out = String::from_str("error: failed to create file '");
                out.append(file.as_str());
                out.append("' with error: ");
                out.append(err.as_str());
                proof {
                    assert(out@ =~= spec_message(*self));
                }
                out
            },
            ProjectError::CannotOpenFile(file, err) => {
                let mut out = String::from_str("error: failed to open file '");
                out.append(file.as_str());
                out.append("' with error: ");
                out.append(err.as_str());
                proof {
                    assert(out@ =~= spec_message(*self));
                }
                out
            },
            ProjectError::FailedToRunProcess(process, code) => {
                let mut out = String::from_str("error: run process '");
                out.append(process.as_str());
                out.append("' exited with ");
                match code {
                    Some(c) => {
                        out.append("exit code ");
                        let digits = i32_to_string(*c);
                        out.append(digits.as_str());
                    },
                    None => {
                        out.append("an unknown error code");
                    },
                }
                proof {
                    assert(out@ =~= spec_message(*self));
                }
                out
            },
        }
    }
}

/// Relies on `writeln!` to standard error: prints one line of text.
#[verifier::external_body]
fn print_error_line(msg: &str)
{
    let _ = writeln!(std::io::stderr(), "{}", msg);
}

/// Report a failed result on standard error; a success prints nothing.
pub trait DisplayError {
    fn display_error(self);
}

impl<T> DisplayError for Result<T, ProjectError> {
    fn display_error(self) {
        match self {
            Ok(_) => {},
            Err(e) => {
                let msg = e.message();
                print_error_line(msg.as_str());
            },
        }
    }
}

} // verus!
