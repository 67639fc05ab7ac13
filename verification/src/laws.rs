//! What every valid assignment guarantees, proved once and for all.

use vstd::prelude::*;
use vstd::seq_lib::group_to_multiset_ensures;
use crate::assignment::{
    find_by_giver, giver_names, giver_pairs, lemma_to_multiset_map, lemma_two_elem_multiset,
    recipient_names, valid_assignment, valid_entry, Entry,
};
use crate::avoid::{lookup, symmetric};
use crate::participant::{distinct_names, name_contact_pairs, names, Participant};

verus! {

/// Bijection: a valid assignment has one entry per participant, its
/// giver names tally exactly the participant names, and so do its
/// recipient names — so, with distinct participant names, every
/// participant gives exactly once and receives exactly once.
pub proof fn lemma_assignment_bijection(
    s: Seq<Entry>,
    ps: Seq<Participant>,
    av: Seq<(Seq<char>, Seq<char>)>,
)
    requires
        valid_assignment(s, ps, av),
    ensures
        s.len() == ps.len(),
        giver_names(s).to_multiset() == names(ps).to_multiset(),
        recipient_names(s).to_multiset() == names(ps).to_multiset(),
        giver_names(s).to_set() == names(ps).to_set(),
        recipient_names(s).to_set() == names(ps).to_set(),
        distinct_names(ps) ==> giver_names(s).no_duplicates(),
        distinct_names(ps) ==> recipient_names(s).no_duplicates(),
{
    broadcast use group_to_multiset_ensures;

    let f = |pr: (Seq<char>, Seq<char>)| pr.0;
    lemma_to_multiset_map(giver_pairs(s), name_contact_pairs(ps), f);
    assert(giver_pairs(s).map_values(f) =~= giver_names(s));
    assert(name_contact_pairs(ps).map_values(f) =~= names(ps));
    assert(recipient_names(s).to_multiset().len() == recipient_names(s).len());
    assert(names(ps).to_multiset().len() == names(ps).len());
    assert(giver_names(s).to_set() =~= names(ps).to_set()) by {
        assert forall|x: Seq<char>|
            giver_names(s).contains(x) <==> names(ps).contains(x) by {
            assert(giver_names(s).contains(x) <==> giver_names(s).to_multiset().count(x) > 0);
            assert(names(ps).contains(x) <==> names(ps).to_multiset().count(x) > 0);
        }
    }
    assert(recipient_names(s).to_set() =~= names(ps).to_set()) by {
        assert forall|x: Seq<char>|
            recipient_names(s).contains(x) <==> names(ps).contains(x) by {
            assert(recipient_names(s).contains(x) <==> recipient_names(s).to_multiset().count(x)
                > 0);
            assert(names(ps).contains(x) <==> names(ps).to_multiset().count(x) > 0);
        }
    }
    if distinct_names(ps) {
        assert(names(ps).no_duplicates());
        names(ps).lemma_multiset_has_no_duplicates();
        giver_names(s).lemma_multiset_has_no_duplicates_conv();
        recipient_names(s).lemma_multiset_has_no_duplicates_conv();
    }
}

/// Forbidden-pair exclusion holds in both directions whenever the
/// relation itself is symmetric: no entry realizes a forbidden pair as
/// giver-to-recipient, nor as recipient-to-giver.
pub proof fn lemma_forbidden_excluded_both_ways(
    s: Seq<Entry>,
    ps: Seq<Participant>,
    av: Seq<(Seq<char>, Seq<char>)>,
)
    requires
        valid_assignment(s, ps, av),
        symmetric(av),
    ensures
        forall|i: int|
            0 <= i < s.len() ==> lookup(av, (#[trigger] s[i]).recipient@) != Some(s[i].giver@)
                && lookup(av, s[i].giver@) != Some(s[i].recipient@),
{
    assert forall|i: int|
        0 <= i < s.len() implies lookup(av, (#[trigger] s[i]).recipient@) != Some(s[i].giver@)
        && lookup(av, s[i].giver@) != Some(s[i].recipient@) by {
        assert(valid_entry(s[i], av));
        if lookup(av, s[i].giver@) == Some(s[i].recipient@) {
            assert(lookup(av, s[i].recipient@) == Some(s[i].giver@));
        }
    }
}

/// `find_by_giver` succeeds exactly when some entry has that giver, and
/// what it finds is such an entry.
proof fn lemma_find_by_giver_some(s: Seq<Entry>, k: Seq<char>)
    ensures
        (find_by_giver(s, k) is Some) <==> exists|i: int| 0 <= i < s.len() && (#[trigger] s[i]).giver@
            == k,
        find_by_giver(s, k) matches Some(e) ==> e.giver@ == k,
    decreases s.len(),
{
    if s.len() == 0 {
    } else if s[0].giver@ == k {
    } else {
        lemma_find_by_giver_some(s.drop_first(), k);
        assert forall|i: int|
            0 <= i < s.len() && (#[trigger] s[i]).giver@ == k implies find_by_giver(s, k)
            is Some by {
            assert(s.drop_first()[i - 1] == s[i]);
        }
        if exists|i: int| 0 <= i < s.drop_first().len() && (#[trigger] s.drop_first()[i]).giver@
            == k {
            let i = choose|i: int|
                0 <= i < s.drop_first().len() && (#[trigger] s.drop_first()[i]).giver@ == k;
            assert(s[i + 1].giver@ == k);
        }
    }
}

/// Every participant gives: in a valid assignment, looking any
/// participant's name up as a giver finds an entry bearing it.
pub proof fn lemma_every_participant_gives(
    s: Seq<Entry>,
    ps: Seq<Participant>,
    av: Seq<(Seq<char>, Seq<char>)>,
)
    requires
        valid_assignment(s, ps, av),
    ensures
        forall|i: int|
            0 <= i < ps.len() ==> (#[trigger] find_by_giver(s, names(ps)[i]) matches Some(e)
                && e.giver@ == names(ps)[i]),
{
    broadcast use group_to_multiset_ensures;

    lemma_assignment_bijection(s, ps, av);
    assert forall|i: int|
        0 <= i < ps.len() implies (#[trigger] find_by_giver(s, names(ps)[i]) matches Some(e)
        && e.giver@ == names(ps)[i]) by {
        let nm = names(ps)[i];
        assert(names(ps).contains(nm));
        assert(names(ps).to_multiset().count(nm) > 0);
        assert(giver_names(s).to_multiset().count(nm) > 0);
        assert(giver_names(s).contains(nm));
        let j = choose|j: int| 0 <= j < giver_names(s).len() && giver_names(s)[j] == nm;
        assert(s[j].giver@ == nm);
        lemma_find_by_giver_some(s, nm);
    }
}

/// With exactly two participants, a valid assignment is forced: each
/// one gives to the other.
pub proof fn lemma_two_participants_swap(
    s: Seq<Entry>,
    ps: Seq<Participant>,
    av: Seq<(Seq<char>, Seq<char>)>,
)
    requires
        valid_assignment(s, ps, av),
        ps.len() == 2,
        distinct_names(ps),
    ensures
        s.len() == 2,
        s[0].recipient@ != s[1].recipient@,
        forall|i: int|
            0 <= i < 2 ==> ((#[trigger] s[i]).recipient@ == names(ps)[0] ==> s[i].giver@ == names(
                ps,
            )[1]) && (s[i].recipient@ == names(ps)[1] ==> s[i].giver@ == names(ps)[0]) && (
            s[i].recipient@ == names(ps)[0] || s[i].recipient@ == names(ps)[1]),
{
    let n0 = names(ps)[0];
    let n1 = names(ps)[1];
    assert(n0 != n1);
    lemma_assignment_bijection(s, ps, av);
    let rn = recipient_names(s);
    let gn = giver_names(s);
    assert(rn.len() == 2 && gn.len() == 2 && names(ps).len() == 2);
    lemma_two_elem_multiset(rn);
    lemma_two_elem_multiset(gn);
    lemma_two_elem_multiset(names(ps));
    assert(rn[0] == s[0].recipient@ && rn[1] == s[1].recipient@);
    assert(gn[0] == s[0].giver@ && gn[1] == s[1].giver@);
    assert(names(ps).to_multiset().count(n0) == 1);
    assert(names(ps).to_multiset().count(n1) == 1);
    assert(rn[0] != rn[1]) by {
        if rn[0] == rn[1] {
            assert(rn.to_multiset().count(rn[0]) == 2);
        }
    }
    assert(gn[0] != gn[1]) by {
        if gn[0] == gn[1] {
            assert(gn.to_multiset().count(gn[0]) == 2);
        }
    }
    assert forall|i: int| 0 <= i < 2 implies (#[trigger] s[i]).recipient@ == n0
        || s[i].recipient@ == n1 by {
        assert(rn.to_multiset().count(rn[i]) >= 1);
    }
    assert forall|i: int| 0 <= i < 2 implies (#[trigger] s[i]).giver@ == n0 || s[i].giver@
        == n1 by {
        assert(gn.to_multiset().count(gn[i]) >= 1);
    }
    assert(valid_entry(s[0], av) && valid_entry(s[1], av));
}

} // verus!
