//! Participants of a run: a display name and a contact address.

use vstd::prelude::*;

verus! {

/// One person taking part in the exchange.
pub struct Participant {
    pub name: String,
    pub contact: String,
}

impl Participant {
    pub fn new(name: String, contact: String) -> (p: Participant)
        ensures
            p.name@ == name@,
            p.contact@ == contact@,
    {
        Participant { name, contact }
    }
}

/// The names of a participant sequence, in order.
pub open spec fn names(ps: Seq<Participant>) -> Seq<Seq<char>> {
    ps.map_values(|p: Participant| p.name@)
}

/// The name–contact pairs of a participant sequence, in order.
pub open spec fn name_contact_pairs(ps: Seq<Participant>) -> Seq<(Seq<char>, Seq<char>)> {
    ps.map_values(|p: Participant| (p.name@, p.contact@))
}

/// No two participants share a name.
pub open spec fn distinct_names(ps: Seq<Participant>) -> bool {
    forall|i: int, j: int| 0 <= i < j < ps.len() ==> names(ps)[i] != names(ps)[j]
}

} // verus!
