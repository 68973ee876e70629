//! The shell line.

use vstd::prelude::*;
use vstd::string::StringExecFns;
use crate::pattern::{find_first, first_match};
use crate::text::{lowercase, to_lowercase};

verus! {

/// The shell whose version the report gives.
pub const ZSH: &'static str = "zsh";

/// What zsh says of itself: its name and a version number.
pub const ZSH_VERSION_PATTERN: &'static str = "(?i)zsh [\\d\\.]+";

/// What the report says of a zsh that could not be asked.
pub const ZSH_UNKNOWN: &'static str = "zsh ?.?";

/// What the report puts behind the name of any other shell.
pub const UNIMPLEMENTED: &'static str = " (unimplemented)";

/// What the shell line is for the shell whose name in lower case is `name`,
/// given what was found in the answer of zsh: for zsh what was found, or the
/// note where zsh gave no answer, and `None` where it answered without
/// telling its version; for any other shell its name, marked.
pub open spec fn shell_line(
    name: Seq<char>,
    answered: bool,
    found: Option<Seq<char>>,
) -> Option<Seq<char>> {
    if name == ZSH@ {
        if answered {
            found
        } else {
            Some(ZSH_UNKNOWN@)
        }
    } else {
        Some(name + UNIMPLEMENTED@)
    }
}

/// The program to ask for its version before the line can be written, if
/// there is one for the shell called `name`, in whatever case.
pub fn shell_probe(name: &str) -> (program: Option<&'static str>)
    ensures
        program == (if lowercase(name@) == ZSH@ {
            Some(ZSH)
        } else {
            None
        }),
{
    if to_lowercase(name) == String::from_str(ZSH) {
        Some(ZSH)
    } else {
        None
    }
}

/// Writes the shell line for the shell whose name in lower case is `name`,
/// given what was found in the answer of zsh.
pub fn write_shell_line(name: &str, answered: bool, found: Option<String>) -> (line: Option<String>)
    ensures
        match line {
            Some(l) => shell_line(
                name@,
                answered,
                match found {
                    Some(f) => Some(f@),
                    None => None,
                },
            ) == Some(l@),
            None => shell_line(
                name@,
                answered,
                match found {
                    Some(f) => Some(f@),
                    None => None,
                },
            ) is None,
        },
{
    if String::from_str(name) == String::from_str(ZSH) {
        if answered {
            found
        } else {
            Some(String::from_str(ZSH_UNKNOWN))
        }
    } else {
        let mut line = String::from_str(name);
        line.append(UNIMPLEMENTED);
        Some(line)
    }
}

/// The shell line of the report, for the shell called `name`, in whatever
/// case, and the answer of the program that `shell_probe` named, if it gave
/// one. `None` where zsh answered without telling its version.
pub fn get_shell(name: &str, version_output: Option<&str>) -> (line: Option<String>)
    ensures
        match line {
            Some(l) => shell_line(
                lowercase(name@),
                version_output is Some,
                match version_output {
                    Some(out) => first_match(ZSH_VERSION_PATTERN@, out@),
                    None => None,
                },
            ) == Some(l@),
            None => shell_line(
                lowercase(name@),
                version_output is Some,
                match version_output {
                    Some(out) => first_match(ZSH_VERSION_PATTERN@, out@),
                    None => None,
                },
            ) is None,
        },
{
    let lowered = to_lowercase(name);
    match version_output {
        Some(out) => write_shell_line(
            lowered.as_str(),
            true,
            find_first(ZSH_VERSION_PATTERN, out),
        ),
        None => write_shell_line(lowered.as_str(), false, None),
    }
}

} // verus!
