//! The packages line.

use vstd::prelude::*;
use vstd::string::StringExecFns;
use crate::text::{decimal, push_decimal};

verus! {

/// The packages line, given the number of entries in the database directory
/// of pacman, or `None` where pacman is not installed. One entry of the
/// directory is no package; a database without packages gives the empty
/// line.
pub open spec fn packages_line(pacman_entries: Option<nat>) -> Seq<char> {
    match pacman_entries {
        Some(n) => if n > 1 {
            decimal((n - 1) as nat) + " (pacman)"@
        } else {
            Seq::empty()
        },
        None => Seq::empty(),
    }
}

/// Writes the packages line. A database directory has at least the one entry
/// that is no package.
pub fn get_packages(pacman_entries: Option<usize>) -> (line: String)
    requires
        pacman_entries matches Some(n) ==> n >= 1,
    ensures
        line@ == packages_line(
            match pacman_entries {
                Some(n) => Some(n as nat),
                None => None,
            },
        ),
{
    let mut packages = String::new();
    match pacman_entries {
        Some(n) => {
            let cnt = n - 1;
            if cnt > 0 {
                push_decimal(&mut packages, cnt as u64);
                packages.append(" (pacman)");
            }
        },
        None => {},
    }
    packages
}

} // verus!
