//! The kind of script a file declares on its first line.
use vstd::prelude::*;
use crate::text::str_is;

verus! {

#[derive(Debug, Clone, Copy, PartialEq, Eq, Structural)]
pub enum ScriptType {
    Unrecognized,
    Component,
    System,
}

/// The script type named by `s`.
pub open spec fn script_type_of(s: Seq<char>) -> ScriptType {
    if s == "Component"@ {
        ScriptType::Component
    } else if s == "System"@ {
        ScriptType::System
    } else {
        ScriptType::Unrecognized
    }
}

impl ScriptType {
    /// Returns the script type associated with a particular string.
    pub fn from_string(string: &str) -> (r: ScriptType)
        ensures
            r == script_type_of(string@),
    {
        if str_is(string, "Component") {
            ScriptType::Component
        } else if str_is(string, "System") {
            ScriptType::System
        } else {
            ScriptType::Unrecognized
        }
    }
}

} // verus!
