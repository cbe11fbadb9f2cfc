use vstd::prelude::*;
use crate::strmap::str_eq;

verus! {

/// The three record families.
#[derive(Clone, Copy, Debug, PartialEq, Eq, Structural)]
pub enum Family {
    /// String tables: strings by key.
    Stl,
    /// Value lists: strings in file order.
    Aff,
    /// Skill graphs: nodes in file order.
    Skl,
}

impl Family {
    /// The family whose files carry the extension `extension`, written
    /// without a dot and in lower case.
    pub open spec fn of_extension(extension: Seq<char>) -> Option<Family> {
        if extension == "stl"@ {
            Some(Family::Stl)
        } else if extension == "aff"@ {
            Some(Family::Aff)
        } else if extension == "skl"@ {
            Some(Family::Skl)
        } else {
            None
        }
    }

    /// The family whose files carry the extension `extension`.
    pub fn from_extension(extension: &str) -> (family: Option<Family>)
        ensures
            family == Family::of_extension(extension@),
    {
        if str_eq(extension, "stl") {
            Some(Family::Stl)
        } else if str_eq(extension, "aff") {
            Some(Family::Aff)
        } else if str_eq(extension, "skl") {
            Some(Family::Skl)
        } else {
            None
        }
    }

    /// The title under which a collection of the family is shown.
    pub fn tab_title(&self) -> (title: &'static str)
        ensures
            title@ == (match *self {
                Family::Stl => ".stl"@,
                Family::Aff => ".aff"@,
                Family::Skl => ".skl"@,
            }),
    {
        match self {
            Family::Stl => ".stl",
            Family::Aff => ".aff",
            Family::Skl => ".skl",
        }
    }

    /// The name of the document that holds a decoded collection of the
    /// family.
    pub fn data_file(&self) -> (name: &'static str)
        ensures
            name@ == (match *self {
                Family::Stl => "stl.json"@,
                Family::Aff => "aff.json"@,
                Family::Skl => "skl.json"@,
            }),
    {
        match self {
            Family::Stl => "stl.json",
            Family::Aff => "aff.json",
            Family::Skl => "skl.json",
        }
    }
}

} // verus!
