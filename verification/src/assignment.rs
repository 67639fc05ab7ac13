//! The result of a run: who gives to whom, and what makes such a
//! mapping valid.

use vstd::prelude::*;
use vstd::multiset::Multiset;
use vstd::seq_lib::group_to_multiset_ensures;
use crate::avoid::lookup;
use crate::participant::{name_contact_pairs, names, Participant};

verus! {

/// One finalized pairing: `giver` (reachable at `contact`) gives a gift
/// to `recipient`.
#[derive(Debug)]
pub struct Entry {
    pub giver: String,
    pub contact: String,
    pub recipient: String,
}

/// A complete run result, one entry per participant.
#[derive(Debug)]
pub struct Assignment {
    pub entries: Vec<Entry>,
}

impl View for Assignment {
    type V = Seq<Entry>;

    open spec fn view(&self) -> Seq<Entry> {
        self.entries@
    }
}

/// The giver names of an entry sequence, in order.
pub open spec fn giver_names(s: Seq<Entry>) -> Seq<Seq<char>> {
    s.map_values(|e: Entry| e.giver@)
}

/// The recipient names of an entry sequence, in order.
pub open spec fn recipient_names(s: Seq<Entry>) -> Seq<Seq<char>> {
    s.map_values(|e: Entry| e.recipient@)
}

/// The giver name–contact pairs of an entry sequence, in order.
pub open spec fn giver_pairs(s: Seq<Entry>) -> Seq<(Seq<char>, Seq<char>)> {
    s.map_values(|e: Entry| (e.giver@, e.contact@))
}

/// May `giver` be matched with `recipient` under the forbidden-pair
/// relation `av`? No self-gifting, and the relation must not exclude
/// the pairing.
pub open spec fn allowed_pairing(
    giver: Seq<char>,
    recipient: Seq<char>,
    av: Seq<(Seq<char>, Seq<char>)>,
) -> bool {
    &&& giver != recipient
    &&& lookup(av, recipient) != Some(giver)
}

/// One entry is valid when its pairing is allowed.
pub open spec fn valid_entry(e: Entry, av: Seq<(Seq<char>, Seq<char>)>) -> bool {
    allowed_pairing(e.giver@, e.recipient@, av)
}

/// What a successful run must deliver: the givers, with their contacts,
/// are exactly the participants; the recipients are exactly the
/// participant names; and every single pairing is allowed.
pub open spec fn valid_assignment(
    s: Seq<Entry>,
    ps: Seq<Participant>,
    av: Seq<(Seq<char>, Seq<char>)>,
) -> bool {
    &&& giver_pairs(s).to_multiset() == name_contact_pairs(ps).to_multiset()
    &&& recipient_names(s).to_multiset() == names(ps).to_multiset()
    &&& forall|i: int| 0 <= i < s.len() ==> valid_entry(#[trigger] s[i], av)
}

/// First entry whose giver bears the name `k`, if any.
pub open spec fn find_by_giver(s: Seq<Entry>, k: Seq<char>) -> Option<Entry>
    decreases s.len(),
{
    if s.len() == 0 {
        None
    } else if s[0].giver@ == k {
        Some(s[0])
    } else {
        find_by_giver(s.drop_first(), k)
    }
}

impl Assignment {
    /// How many entries the run produced.
    pub fn len(&self) -> (n: usize)
        ensures
            n == self@.len(),
    {
        self.entries.len()
    }

    /// The entry at position `i`.
    pub fn entry(&self, i: usize) -> (e: &Entry)
        requires
            i < self@.len(),
        ensures
            *e == self@[i as int],
    {
        &self.entries[i]
    }

    /// The entry whose giver bears the name `name`, if any.
    pub fn get(&self, name: &String) -> (r: Option<&Entry>)
        ensures
            match r {
                Some(e) => find_by_giver(self@, name@) == Some(*e),
                None => find_by_giver(self@, name@) is None,
            },
    {
        let n = self.entries.len();
        let mut i: usize = 0;
        proof {
            assert(self@.skip(0) =~= self@);
        }
        while i < n
            invariant
                n == self@.len(),
                i <= n,
                find_by_giver(self@, name@) == find_by_giver(self@.skip(i as int), name@),
            decreases n - i,
        {
            proof {
                assert(self@.skip(i as int)[0] == self@[i as int]);
                assert(self@.skip(i as int).drop_first() =~= self@.skip(i as int + 1));
            }
            if self.entries[i].giver == *name {
                return Some(&self.entries[i]);
            }
            i = i + 1;
        }
        proof {
            assert(self@.skip(n as int) =~= Seq::<Entry>::empty());
        }
        None
    }
}

/// A sequence of two elements converts to the multiset of just those two.
pub proof fn lemma_two_elem_multiset<A>(q: Seq<A>)
    requires
        q.len() == 2,
    ensures
        q.to_multiset() == Multiset::empty().insert(q[0]).insert(q[1]),
{
    broadcast use group_to_multiset_ensures;

    assert(q =~= Seq::<A>::empty().push(q[0]).push(q[1]));
    assert(Seq::<A>::empty().to_multiset().len() == 0);
    assert(Seq::<A>::empty().to_multiset() =~= Multiset::<A>::empty());
    assert(q.to_multiset() =~= Multiset::empty().insert(q[0]).insert(q[1]));
}

/// Sequences with the same elements still have the same elements after
/// both are mapped by the same function.
pub proof fn lemma_to_multiset_map<A, B>(s1: Seq<A>, s2: Seq<A>, f: spec_fn(A) -> B)
    requires
        s1.to_multiset() == s2.to_multiset(),
    ensures
        s1.map_values(f).to_multiset() == s2.map_values(f).to_multiset(),
    decreases s1.len(),
{
    broadcast use group_to_multiset_ensures;

    if s1.len() == 0 {
        assert(s1.to_multiset().len() == s1.len());
        assert(s2.to_multiset().len() == s2.len());
        assert(s2.len() == 0);
        assert(s1.map_values(f) =~= Seq::<B>::empty());
        assert(s2.map_values(f) =~= Seq::<B>::empty());
    } else {
        let a = s1.last();
        let s1h = s1.drop_last();
        assert(s1 =~= s1h.push(a));
        assert(s1.to_multiset().count(a) > 0) by {
            assert(s1.contains(a));
        }
        assert(s2.contains(a));
        let i = choose|i: int| 0 <= i < s2.len() && s2[i] == a;
        let s2r = s2.remove(i);
        assert(s2r.to_multiset() == s2.to_multiset().remove(a));
        assert(s1h.to_multiset() =~= s2r.to_multiset()) by {
            assert(s1h.push(a).to_multiset() =~= s1h.to_multiset().insert(a));
        }
        lemma_to_multiset_map(s1h, s2r, f);
        assert(s1.map_values(f) =~= s1h.map_values(f).push(f(a)));
        assert(s2r.map_values(f) =~= s2.map_values(f).remove(i));
        assert(s1.map_values(f).to_multiset() =~= s1h.map_values(f).to_multiset().insert(f(a)));
        assert(s2.map_values(f)[i] == f(a));
        assert(s2.map_values(f).remove(i).to_multiset() =~= s2.map_values(f).to_multiset().remove(
            f(a),
        ));
        assert(s2.map_values(f).to_multiset().count(f(a)) > 0) by {
            assert(s2.map_values(f).contains(f(a)));
        }
        assert(s1.map_values(f).to_multiset() =~= s2.map_values(f).to_multiset());
    }
}

} // verus!
