//! Everything that concerns attached displays: the list of connected
//! outputs with their best mode, and the decoder for what a display says of
//! itself.

pub mod edid;
pub mod edid_video_input_params;

use vstd::prelude::*;
use vstd::string::StringExecFns;
use crate::pattern::{is_match, regex_is_match};
use crate::text::{first_line, format_tree_list, take_first_line, tree_list, trim, trimmed};

verus! {

/// The names that the kernel gives to display outputs, such as
/// `card0-HDMI-A-1`: a card, a connector type and a number.
pub const OUTPUT_PATTERN: &'static str = "(?i)^card\\d+-[A-Z59_-]+?-\\d+$";

/// What the report says where no output qualifies.
pub const NO_DISPLAYS: &'static str = "None found";

/// One entry of the directory of graphics devices, with what its files hold.
pub struct Connector {
    /// The entry's name.
    pub name: String,
    /// Whether the entry has a regular file `status`.
    pub has_status: bool,
    /// Whether the entry has a regular file `edid`.
    pub has_edid: bool,
    /// The content of `status`; of no account where there is no such file.
    pub status: String,
    /// The content of `modes`, where it could be read.
    pub modes: Option<String>,
}

/// Whether a status file reports a connected display.
pub open spec fn is_connected(status: Seq<char>) -> bool {
    trimmed(status) == "connected"@
}

/// The mode that an entry contributes to the list: the first line of its
/// modes, which is the largest, if the entry is named like an output, has
/// both files and is connected.
pub open spec fn listed_mode(
    named_like_output: bool,
    has_status: bool,
    has_edid: bool,
    status: Seq<char>,
    modes: Option<Seq<char>>,
) -> Option<Seq<char>> {
    if named_like_output && has_status && has_edid && is_connected(status) {
        match modes {
            Some(m) => first_line(m),
            None => None,
        }
    } else {
        None
    }
}

impl Connector {
    /// The mode that this entry contributes to the list.
    pub open spec fn mode(self) -> Option<Seq<char>> {
        listed_mode(
            regex_is_match(OUTPUT_PATTERN@, self.name@) == Some(true),
            self.has_status,
            self.has_edid,
            self.status@,
            match self.modes {
                Some(m) => Some(m@),
                None => None,
            },
        )
    }
}

/// The modes of the entries that contribute one, in the order of the entries.
pub open spec fn listed_modes(connectors: Seq<Connector>) -> Seq<Seq<char>>
    decreases connectors.len(),
{
    if connectors.len() == 0 {
        Seq::empty()
    } else {
        let before = listed_modes(connectors.drop_last());
        match connectors.last().mode() {
            Some(mode) => before.push(mode),
            None => before,
        }
    }
}

/// Whether `name` is the name of a display output.
pub fn is_output_name(name: &str) -> (named: bool)
    ensures
        named == (regex_is_match(OUTPUT_PATTERN@, name@) == Some(true)),
{
    match is_match(OUTPUT_PATTERN, name) {
        Some(found) => found,
        None => false,
    }
}

/// Whether the status of an entry is to be read: whether the entry is named
/// like an output and has both files.
pub fn wants_status(name: &str, has_status: bool, has_edid: bool) -> (wanted: bool)
    ensures
        wanted == (regex_is_match(OUTPUT_PATTERN@, name@) == Some(true) && has_status
            && has_edid),
{
    is_output_name(name) && has_status && has_edid
}

/// Whether the modes of an entry are to be read, once its status was:
/// whether the status reports a connected display.
pub fn wants_modes(status: &str) -> (wanted: bool)
    ensures
        wanted == is_connected(status@),
{
    String::from_str(trim(status)) == String::from_str("connected")
}

/// An entry whose status is not wanted contributes nothing, whatever its
/// files hold, and neither does one whose modes are not wanted.
pub proof fn lemma_unread_files_do_not_count(
    named_like_output: bool,
    has_status: bool,
    has_edid: bool,
    status: Seq<char>,
    modes: Option<Seq<char>>,
)
    ensures
        !(named_like_output && has_status && has_edid) ==> listed_mode(
            named_like_output,
            has_status,
            has_edid,
            status,
            modes,
        ) is None,
        !is_connected(status) ==> listed_mode(
            named_like_output,
            has_status,
            has_edid,
            status,
            modes,
        ) is None,
{
}

/// Decides what an entry contributes to the list, given whether its name is
/// that of an output.
pub fn connector_mode(
    named_like_output: bool,
    has_status: bool,
    has_edid: bool,
    status: &str,
    modes: Option<&str>,
) -> (mode: Option<String>)
    ensures
        match mode {
            Some(m) => listed_mode(
                named_like_output,
                has_status,
                has_edid,
                status@,
                match modes {
                    Some(m) => Some(m@),
                    None => None,
                },
            ) == Some(m@),
            None => listed_mode(
                named_like_output,
                has_status,
                has_edid,
                status@,
                match modes {
                    Some(m) => Some(m@),
                    None => None,
                },
            ) is None,
        },
{
    if named_like_output && has_status && has_edid {
        if wants_modes(status) {
            match modes {
                Some(m) => match take_first_line(m) {
                    Some(line) => Some(String::from_str(line)),
                    None => None,
                },
                None => None,
            }
        } else {
            None
        }
    } else {
        None
    }
}

/// The displays line of the report: the largest mode of every connected
/// output, as a list.
pub fn get_displays(connectors: &Vec<Connector>) -> (text: String)
    ensures
        text@ == tree_list(listed_modes(connectors@), NO_DISPLAYS@),
{
    let mut monitors: Vec<String> = Vec::new();
    let mut i: usize = 0;
    while i < connectors.len()
        invariant
            i <= connectors@.len(),
            Seq::new(monitors@.len(), |k: int| monitors@[k]@) == listed_modes(
                connectors@.take(i as int),
            ),
        decreases connectors@.len() - i,
    {
        let c = &connectors[i];
        let named = is_output_name(c.name.as_str());
        let modes: Option<&str> = match &c.modes {
            Some(m) => Some(m.as_str()),
            None => None,
        };
        let ghost before = Seq::new(monitors@.len(), |k: int| monitors@[k]@);
        let mode = connector_mode(named, c.has_status, c.has_edid, c.status.as_str(), modes);
        proof {
            assert(connectors@.take(i + 1).drop_last() =~= connectors@.take(i as int));
            assert(connectors@.take(i + 1).last() == connectors@[i as int]);
        }
        match mode {
            Some(m) => {
                monitors.push(m);
                assert(Seq::new(monitors@.len(), |k: int| monitors@[k]@) =~= before.push(
                    monitors@[monitors@.len() - 1]@,
                ));
            },
            None => {},
        }
        i = i + 1;
    }
    assert(connectors@.take(i as int) =~= connectors@);
    format_tree_list(&monitors, NO_DISPLAYS)
}

} // verus!
