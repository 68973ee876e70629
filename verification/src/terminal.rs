//! The terminal line.

use vstd::prelude::*;
use vstd::string::StringExecFns;
use crate::pattern::{find_first, first_match};
use crate::shell::UNIMPLEMENTED;
use crate::text::{lowercase, to_lowercase};

verus! {

/// The terminal whose version the report gives, as its process is called.
pub const KITTY: &'static str = "kitty";

/// The terminal whose version the report gives, as the report calls it.
pub const KITTY_LABEL: &'static str = "Kitty";

/// A version number of three parts.
pub const VERSION_PATTERN: &'static str = "\\d+\\.\\d+\\.\\d+";

/// What the terminal line is for the terminal whose name in lower case is
/// `name`, given what was found in the answer of kitty: for kitty its label and the version, or the label alone where kitty gave
/// no answer, and `None` where it answered without telling its version; for
/// any other terminal its name, marked.
pub open spec fn terminal_line(
    name: Seq<char>,
    answered: bool,
    found: Option<Seq<char>>,
) -> Option<Seq<char>> {
    if name == KITTY@ {
        if answered {
            match found {
                Some(version) => Some(KITTY_LABEL@ + " "@ + version),
                None => None,
            }
        } else {
            Some(KITTY_LABEL@)
        }
    } else {
        Some(name + UNIMPLEMENTED@)
    }
}

/// The program to ask for its version before the line can be written, if
/// there is one for the terminal called `name`, in whatever case.
pub fn term_probe(name: &str) -> (program: Option<&'static str>)
    ensures
        program == (if lowercase(name@) == KITTY@ {
            Some(KITTY)
        } else {
            None
        }),
{
    if to_lowercase(name) == String::from_str(KITTY) {
        Some(KITTY)
    } else {
        None
    }
}

/// Writes the terminal line for the terminal whose name in lower case is
/// `name`, given what was found in the answer of kitty.
pub fn write_term_line(name: &str, answered: bool, found: Option<String>) -> (line: Option<String>)
    ensures
        match line {
            Some(l) => terminal_line(
                name@,
                answered,
                match found {
                    Some(f) => Some(f@),
                    None => None,
                },
            ) == Some(l@),
            None => terminal_line(
                name@,
                answered,
                match found {
                    Some(f) => Some(f@),
                    None => None,
                },
            ) is None,
        },
{
    if String::from_str(name) == String::from_str(KITTY) {
        if answered {
            match found {
                Some(version) => {
                    let mut line = String::from_str(KITTY_LABEL);
                    line.append(" ");
                    line.append(version.as_str());
                    Some(line)
                },
                None => None,
            }
        } else {
            Some(String::from_str(KITTY_LABEL))
        }
    } else {
        let mut line = String::from_str(name);
        line.append(UNIMPLEMENTED);
        Some(line)
    }
}

/// The terminal line of the report, for the terminal called `name`, in
/// whatever case, and the answer of the program that `term_probe` named, if
/// it gave one. `None` where kitty answered without telling its version.
pub fn get_term(name: &str, version_output: Option<&str>) -> (line: Option<String>)
    ensures
        match line {
            Some(l) => terminal_line(
                lowercase(name@),
                version_output is Some,
                match version_output {
                    Some(out) => first_match(VERSION_PATTERN@, out@),
                    None => None,
                },
            ) == Some(l@),
            None => terminal_line(
                lowercase(name@),
                version_output is Some,
                match version_output {
                    Some(out) => first_match(VERSION_PATTERN@, out@),
                    None => None,
                },
            ) is None,
        },
{
    let lowered = to_lowercase(name);
    match version_output {
        Some(out) => write_term_line(lowered.as_str(), true, find_first(VERSION_PATTERN, out)),
        None => write_term_line(lowered.as_str(), false, None),
    }
}

} // verus!
