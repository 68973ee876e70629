//! The desktop line: the desktop environment and the display server.

use vstd::prelude::*;
use vstd::string::StringExecFns;
use crate::pattern::{find_first, first_match};
use crate::terminal::VERSION_PATTERN;

verus! {

/// The desktop environment whose version the report gives.
pub const KDE: &'static str = "Kde";

/// The program that tells the version of KDE.
pub const PLASMASHELL: &'static str = "plasmashell";

/// What the report says where no desktop environment was detected.
pub const UNKNOWN_DESKTOP: &'static str = "Unknown";

/// What the line says of the display server, given whether a Wayland display
/// and whether an X11 display is set.
pub open spec fn display_server(wayland: bool, x11: bool) -> Seq<char> {
    if wayland && x11 {
        " (Wayland + XWayland)"@
    } else if wayland {
        " (Wayland)"@
    } else if x11 {
        " (X11)"@
    } else {
        " (Unknown)"@
    }
}

/// How the line names the desktop environment, given what was found in the
/// answer of plasmashell: for KDE its name and the version, or the name alone
/// where plasmashell gave no answer, and `None` where it answered without
/// telling its version; any other environment by its own name, and
/// `Unknown` where none was detected.
pub open spec fn desktop_name(
    desktop: Option<Seq<char>>,
    answered: bool,
    found: Option<Seq<char>>,
) -> Option<Seq<char>> {
    match desktop {
        Some(name) => if name == KDE@ {
            if answered {
                match found {
                    Some(version) => Some(KDE@ + " "@ + version),
                    None => None,
                }
            } else {
                Some(KDE@)
            }
        } else {
            Some(name)
        },
        None => Some(UNKNOWN_DESKTOP@),
    }
}

/// The desktop line.
pub open spec fn desktop_line(
    desktop: Option<Seq<char>>,
    answered: bool,
    found: Option<Seq<char>>,
    wayland: bool,
    x11: bool,
) -> Option<Seq<char>> {
    match desktop_name(desktop, answered, found) {
        Some(name) => Some(name + display_server(wayland, x11)),
        None => None,
    }
}

/// The view of a text that may be missing.
pub open spec fn text_of(text: Option<&str>) -> Option<Seq<char>> {
    match text {
        Some(t) => Some(t@),
        None => None,
    }
}

/// The program to ask for its version before the line can be written, if
/// there is one for the desktop environment called `desktop`.
pub fn de_probe(desktop: Option<&str>) -> (program: Option<&'static str>)
    ensures
        program == (if desktop matches Some(name) && name@ == KDE@ {
            Some(PLASMASHELL)
        } else {
            None
        }),
{
    match desktop {
        Some(name) => if String::from_str(name) == String::from_str(KDE) {
            Some(PLASMASHELL)
        } else {
            None
        },
        None => None,
    }
}

/// Writes the desktop line, given what was found in the answer of
/// plasmashell.
pub fn write_de_line(
    desktop: Option<&str>,
    answered: bool,
    found: Option<String>,
    wayland: bool,
    x11: bool,
) -> (line: Option<String>)
    ensures
        match line {
            Some(l) => desktop_line(
                text_of(desktop),
                answered,
                match found {
                    Some(f) => Some(f@),
                    None => None,
                },
                wayland,
                x11,
            ) == Some(l@),
            None => desktop_line(
                text_of(desktop),
                answered,
                match found {
                    Some(f) => Some(f@),
                    None => None,
                },
                wayland,
                x11,
            ) is None,
        },
{
    let mut detext = match desktop {
        Some(name) => {
            if String::from_str(name) == String::from_str(KDE) {
                if answered {
                    match found {
                        Some(version) => {
                            let mut text = String::from_str(KDE);
                            text.append(" ");
                            text.append(version.as_str());
                            text
                        },
                        None => {
                            return None;
                        },
                    }
                } else {
                    String::from_str(KDE)
                }
            } else {
                String::from_str(name)
            }
        },
        None => String::from_str(UNKNOWN_DESKTOP),
    };
    if wayland && x11 {
        detext.append(" (Wayland + XWayland)");
    } else if wayland {
        detext.append(" (Wayland)");
    } else if x11 {
        detext.append(" (X11)");
    } else {
        detext.append(" (Unknown)");
    }
    Some(detext)
}

/// The desktop line of the report, for the detected desktop environment, the
/// answer of the program that `de_probe` named, if it gave one, and whether
/// a Wayland and an X11 display are set. `None` where plasmashell answered
/// without telling its version.
pub fn get_de(desktop: Option<&str>, version_output: Option<&str>, wayland: bool, x11: bool) -> (line:
    Option<String>)
    ensures
        match line {
            Some(l) => desktop_line(
                text_of(desktop),
                version_output is Some,
                match version_output {
                    Some(out) => first_match(VERSION_PATTERN@, out@),
                    None => None,
                },
                wayland,
                x11,
            ) == Some(l@),
            None => desktop_line(
                text_of(desktop),
                version_output is Some,
                match version_output {
                    Some(out) => first_match(VERSION_PATTERN@, out@),
                    None => None,
                },
                wayland,
                x11,
            ) is None,
        },
{
    match version_output {
        Some(out) => write_de_line(desktop, true, find_first(VERSION_PATTERN, out), wayland, x11),
        None => write_de_line(desktop, false, None, wayland, x11),
    }
}

} // verus!
