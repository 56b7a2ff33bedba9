//! The tiers of workflow definitions.
use crate::text;
use vstd::prelude::*;

verus! {

/// The tier of a workflow definition: a capability, an orchestrator, or neither.
#[derive(Debug, Clone, Copy, PartialEq, Eq, Structural)]
pub enum Tier {
    Cap,
    Flow,
    Other,
}

/// The id of a definition without its namespace.
pub open spec fn stem(id: Seq<char>) -> Seq<char> {
    text::split(id, '/').last()
}

/// The tier that an id names, by its stem.
pub open spec fn tier_of(id: Seq<char>) -> Tier {
    if "cap."@.is_prefix_of(stem(id)) {
        Tier::Cap
    } else if "flow."@.is_prefix_of(stem(id)) {
        Tier::Flow
    } else {
        Tier::Other
    }
}

impl Tier {
    /// The tier that an id names, by its stem.
    pub fn from_id(id: &str) -> (r: Tier)
        ensures
            r == tier_of(id@),
    {
        let s = text::last_piece(id, '/');
        if text::starts_with(s.as_str(), "cap.") {
            Tier::Cap
        } else if text::starts_with(s.as_str(), "flow.") {
            Tier::Flow
        } else {
            Tier::Other
        }
    }
}

} // verus!
