//! The model line: the machine's name, from the first source that has one.

use vstd::prelude::*;
use vstd::string::StringExecFns;
use crate::text::{trim_end, trimmed_end};

verus! {

/// What the files that may name the machine hold; `None` for one that is no
/// regular file.
pub struct ModelFiles {
    /// `/sys/devices/virtual/dmi/id/board_vendor`
    pub board_vendor: Option<String>,
    /// `/sys/devices/virtual/dmi/id/board_name`
    pub board_name: Option<String>,
    /// `/sys/devices/virtual/dmi/id/product_name`
    pub product_name: Option<String>,
    /// `/sys/devices/virtual/dmi/id/product_version`
    pub product_version: Option<String>,
    /// `/sys/firmware/devicetree/base/model`
    pub devicetree_model: Option<String>,
    /// `/tmp/sysinfo/model`
    pub sysinfo_model: Option<String>,
}

/// One mark for each of the files that may name the machine, in the order
/// of `ModelFiles`: whether the file is a regular file, or whether it is to
/// be read.
#[derive(Clone, Copy, Debug, PartialEq, Eq, Structural)]
pub struct ModelSources {
    pub board_vendor: bool,
    pub board_name: bool,
    pub product_name: bool,
    pub product_version: bool,
    pub devicetree_model: bool,
    pub sysinfo_model: bool,
}

/// No file.
pub open spec fn no_source() -> ModelSources {
    ModelSources {
        board_vendor: false,
        board_name: false,
        product_name: false,
        product_version: false,
        devicetree_model: false,
        sysinfo_model: false,
    }
}

/// The files that name the machine, given which files are there: those of
/// the first source that has one.
pub open spec fn winning(present: ModelSources) -> ModelSources {
    if present.board_vendor || present.board_name {
        ModelSources {
            board_vendor: present.board_vendor,
            board_name: present.board_name,
            ..no_source()
        }
    } else if present.product_name || present.product_version {
        ModelSources {
            product_name: present.product_name,
            product_version: present.product_version,
            ..no_source()
        }
    } else if present.devicetree_model {
        ModelSources { devicetree_model: true, ..no_source() }
    } else if present.sysinfo_model {
        ModelSources { sysinfo_model: true, ..no_source() }
    } else {
        no_source()
    }
}

/// `file` where it is wanted.
pub open spec fn kept(file: Option<String>, wanted: bool) -> Option<String> {
    if wanted {
        file
    } else {
        None
    }
}

/// A name in two parts: the first part, then a space and the second part,
/// each where its file is there, and each without white space at its end.
pub open spec fn two_parts(first: Option<Seq<char>>, second: Option<Seq<char>>) -> Seq<char> {
    let head = match first {
        Some(t) => trimmed_end(t),
        None => Seq::empty(),
    };
    match second {
        Some(t) => head + " "@ + trimmed_end(t),
        None => head,
    }
}

/// The view of a text that may be missing.
pub open spec fn text_of(file: Option<String>) -> Option<Seq<char>> {
    match file {
        Some(t) => Some(t@),
        None => None,
    }
}

impl ModelFiles {
    /// Which files are there.
    pub open spec fn present(self) -> ModelSources {
        ModelSources {
            board_vendor: self.board_vendor is Some,
            board_name: self.board_name is Some,
            product_name: self.product_name is Some,
            product_version: self.product_version is Some,
            devicetree_model: self.devicetree_model is Some,
            sysinfo_model: self.sysinfo_model is Some,
        }
    }

    /// These files without those that are not wanted.
    pub open spec fn only(self, wanted: ModelSources) -> ModelFiles {
        ModelFiles {
            board_vendor: kept(self.board_vendor, wanted.board_vendor),
            board_name: kept(self.board_name, wanted.board_name),
            product_name: kept(self.product_name, wanted.product_name),
            product_version: kept(self.product_version, wanted.product_version),
            devicetree_model: kept(self.devicetree_model, wanted.devicetree_model),
            sysinfo_model: kept(self.sysinfo_model, wanted.sysinfo_model),
        }
    }

    /// The model line: the board's vendor and name where either is known,
    /// else the product's name and version where either is known, else the
    /// model that the device tree gives, else the one that sysinfo gives,
    /// else nothing.
    pub open spec fn model(self) -> Seq<char> {
        if self.board_vendor is Some || self.board_name is Some {
            two_parts(text_of(self.board_vendor), text_of(self.board_name))
        } else if self.product_name is Some || self.product_version is Some {
            two_parts(text_of(self.product_name), text_of(self.product_version))
        } else if self.devicetree_model is Some {
            trimmed_end(self.devicetree_model->0@)
        } else if self.sysinfo_model is Some {
            trimmed_end(self.sysinfo_model->0@)
        } else {
            Seq::empty()
        }
    }
}

/// The files of the winning source are all that the model line needs: what
/// the others hold does not count.
pub proof fn lemma_winning_source_suffices(files: ModelFiles)
    ensures
        files.only(winning(files.present())).model() == files.model(),
{
}

/// Decides which files to read, given which are regular files.
pub fn sources_to_read(present: &ModelSources) -> (wanted: ModelSources)
    ensures
        wanted == winning(*present),
{
    let none = ModelSources {
        board_vendor: false,
        board_name: false,
        product_name: false,
        product_version: false,
        devicetree_model: false,
        sysinfo_model: false,
    };
    if present.board_vendor || present.board_name {
        ModelSources { board_vendor: present.board_vendor, board_name: present.board_name, ..none }
    } else if present.product_name || present.product_version {
        ModelSources {
            product_name: present.product_name,
            product_version: present.product_version,
            ..none
        }
    } else if present.devicetree_model {
        ModelSources { devicetree_model: true, ..none }
    } else if present.sysinfo_model {
        ModelSources { sysinfo_model: true, ..none }
    } else {
        none
    }
}

/// Writes a name in two parts.
fn join_parts(first: &Option<String>, second: &Option<String>) -> (name: String)
    ensures
        name@ == two_parts(text_of(*first), text_of(*second)),
{
    let mut name = String::new();
    match first {
        Some(t) => {
            name.append(trim_end(t.as_str()));
        },
        None => {},
    }
    match second {
        Some(t) => {
            name.append(" ");
            name.append(trim_end(t.as_str()));
        },
        None => {},
    }
    assert(name@ =~= two_parts(text_of(*first), text_of(*second)));
    name
}

/// The model line of the report.
pub fn get_model(files: &ModelFiles) -> (name: String)
    ensures
        name@ == files.model(),
{
    if files.board_vendor.is_some() || files.board_name.is_some() {
        join_parts(&files.board_vendor, &files.board_name)
    } else if files.product_name.is_some() || files.product_version.is_some() {
        join_parts(&files.product_name, &files.product_version)
    } else {
        match &files.devicetree_model {
            Some(t) => String::from_str(trim_end(t.as_str())),
            None => match &files.sysinfo_model {
                Some(t) => String::from_str(trim_end(t.as_str())),
                None => String::new(),
            },
        }
    }
}

} // verus!
