//! Fonts are named by the path they were baked from.

use vstd::prelude::*;
use vstd::string::StringExecFns;

verus! {

/// The name of a baked font.
#[derive(Clone, Debug, PartialEq, Eq, PartialOrd, Ord, Hash)]
pub struct FontId {
    name: String,
}

impl FontId {
    /// The name as a string.
    pub closed spec fn spec_name(&self) -> Seq<char> {
        self.name@
    }

    pub fn new(s: String) -> (r: FontId)
        ensures
            r.spec_name() == s@,
    {
        FontId { name: s }
    }

    pub fn name(&self) -> (r: &str)
        ensures
            r@ == self.spec_name(),
    {
        self.name.as_str()
    }

    /// `FontId` and the name, as a `Display` would print it.
    pub fn to_string(&self) -> (r: String)
        ensures
            r@ == "FontId "@ + self.spec_name(),
    {
        let r = String::from_str("FontId ");
        r.concat(self.name.as_str())
    }
}

} // verus!
