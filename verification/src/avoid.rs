//! The forbidden-pair lookup: each name maps to at most one partner it
//! must not be matched with.
//!
//! A later `insert` for the same name shadows an earlier one, so every
//! name has at most one forbidden partner at a time. Callers that want
//! the relation symmetric insert both directions, as `symmetric`
//! describes.

use vstd::prelude::*;

verus! {

/// First-match lookup over a sequence of (name, partner) pairs.
pub open spec fn lookup(s: Seq<(Seq<char>, Seq<char>)>, k: Seq<char>) -> Option<Seq<char>>
    decreases s.len(),
{
    if s.len() == 0 {
        None
    } else if s[0].0 == k {
        Some(s[0].1)
    } else {
        lookup(s.drop_first(), k)
    }
}

/// Every recorded exclusion holds in both directions.
pub open spec fn symmetric(s: Seq<(Seq<char>, Seq<char>)>) -> bool {
    forall|k: Seq<char>|
        #[trigger] lookup(s, k) matches Some(v) ==> lookup(s, v) == Some(k)
}

/// Who may not give to whom: a lookup from a name to the single partner
/// that name must not be matched with.
pub struct Avoids {
    entries: Vec<(String, String)>,
}

impl View for Avoids {
    type V = Seq<(Seq<char>, Seq<char>)>;

    closed spec fn view(&self) -> Seq<(Seq<char>, Seq<char>)> {
        self.entries@.map_values(|e: (String, String)| (e.0@, e.1@))
    }
}

impl Avoids {
    /// An empty relation: no pair is forbidden.
    pub fn new() -> (m: Avoids)
        ensures
            m@ == Seq::<(Seq<char>, Seq<char>)>::empty(),
    {
        let m = Avoids { entries: Vec::new() };
        proof {
            assert(m@ =~= Seq::<(Seq<char>, Seq<char>)>::empty());
        }
        m
    }

    /// Record that `name` must not be matched with `partner`, replacing
    /// any partner previously recorded for `name`.
    pub fn insert(&mut self, name: String, partner: String)
        ensures
            final(self)@ == seq![(name@, partner@)] + old(self)@,
            forall|k: Seq<char>|
                #![trigger lookup(final(self)@, k)]
                lookup(final(self)@, k) == if k == name@ {
                    Some(partner@)
                } else {
                    lookup(old(self)@, k)
                },
    {
        let ghost pre = self@;
        self.entries.insert(0, (name, partner));
        proof {
            assert(self@ =~= seq![(name@, partner@)] + pre);
            assert(self@.drop_first() =~= pre);
        }
    }

    /// The partner that `name` must not be matched with, if one is recorded.
    pub fn get(&self, name: &String) -> (r: Option<&String>)
        ensures
            match r {
                Some(v) => lookup(self@, name@) == Some(v@),
                None => lookup(self@, name@) is None,
            },
    {
        let n = self.entries.len();
        let mut i: usize = 0;
        proof {
            assert(self@.skip(0) =~= self@);
        }
        while i < n
            invariant
                n == self.entries@.len(),
                i <= n,
                lookup(self@, name@) == lookup(self@.skip(i as int), name@),
            decreases n - i,
        {
            proof {
                assert(self@[i as int] == (self.entries@[i as int].0@, self.entries@[i as int].1@));
                assert(self@.skip(i as int)[0] == self@[i as int]);
                assert(self@.skip(i as int).drop_first() =~= self@.skip(i as int + 1));
            }
            if self.entries[i].0 == *name {
                return Some(&self.entries[i].1);
            }
            i = i + 1;
        }
        proof {
            assert(self@.skip(n as int) =~= Seq::<(Seq<char>, Seq<char>)>::empty());
        }
        None
    }
}

} // verus!
