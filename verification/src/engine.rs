//! The assignment engine: a randomized, retrying matcher.
//!
//! Each attempt walks the participants in order and draws, from a
//! shuffled pool of not-yet-used givers, the first one the rules allow
//! for the participant at hand. An attempt that corners itself is
//! discarded whole; the driver reshuffles the participants and retries,
//! up to a caller-chosen bound.

use vstd::prelude::*;
use vstd::seq_lib::group_to_multiset_ensures;
use crate::assignment::{
    allowed_pairing, giver_pairs, lemma_to_multiset_map, lemma_two_elem_multiset, recipient_names,
    valid_assignment, valid_entry, Assignment, Entry,
};
use crate::avoid::Avoids;
use crate::participant::{name_contact_pairs, names, Participant};
use crate::rng::Shuffler;

verus! {

/// Why a run could not deliver an assignment.
#[derive(Clone, Copy, Debug, PartialEq, Eq, Structural)]
pub enum AssignError {
    /// No valid assignment can exist: a lone participant would have to
    /// gift themselves.
    Infeasible,
    /// A single randomized attempt cornered itself and was discarded.
    Unresolved,
    /// Every attempt the caller allowed was discarded.
    AttemptsExhausted,
}

/// Exactly two participants, each allowed to give to the other. On
/// such an input the greedy pass cannot corner itself, whatever the
/// shuffles produce, so success is owed rather than left to chance.
pub open spec fn mutually_allowed_pair(
    ps: Seq<Participant>,
    av: Seq<(Seq<char>, Seq<char>)>,
) -> bool {
    &&& ps.len() == 2
    &&& allowed_pairing(names(ps)[0], names(ps)[1], av)
    &&& allowed_pairing(names(ps)[1], names(ps)[0], av)
}

/// May `santa` give a gift to `participant`? Nobody gifts themselves,
/// and the forbidden-pair relation must not exclude the pairing.
pub fn valid_santa_for_participant(
    santa: &String,
    participant: &String,
    avoids: &Avoids,
) -> (r: bool)
    ensures
        r == allowed_pairing(santa@, participant@, avoids@),
{
    if *santa == *participant {
        return false;
    }
    match avoids.get(participant) {
        Some(partner) => *partner != *santa,
        None => true,
    }
}

/// Position in `pool` of the first giver allowed for `recipient`, if any.
fn find_valid_candidate(
    participants: &Vec<Participant>,
    pool: &Vec<usize>,
    recipient: &String,
    avoids: &Avoids,
) -> (r: Option<usize>)
    requires
        forall|j: int| 0 <= j < pool@.len() ==> (#[trigger] pool@[j]) < participants@.len(),
    ensures
        match r {
            Some(k) => k < pool@.len() && allowed_pairing(
                participants@[pool@[k as int] as int].name@,
                recipient@,
                avoids@,
            ),
            None => forall|j: int|
                0 <= j < pool@.len() ==> !allowed_pairing(
                    participants@[(#[trigger] pool@[j]) as int].name@,
                    recipient@,
                    avoids@,
                ),
        },
{
    let n = pool.len();
    let mut k: usize = 0;
    while k < n
        invariant
            n == pool@.len(),
            k <= n,
            forall|j: int| 0 <= j < pool@.len() ==> (#[trigger] pool@[j]) < participants@.len(),
            forall|j: int|
                0 <= j < k ==> !allowed_pairing(
                    participants@[(#[trigger] pool@[j]) as int].name@,
                    recipient@,
                    avoids@,
                ),
        decreases n - k,
    {
        let g = pool[k];
        if valid_santa_for_participant(&participants[g].name, recipient, avoids) {
            return Some(k);
        }
        k = k + 1;
    }
    None
}

/// One randomized attempt. Walks the participants in the given order;
/// for each, draws the first allowed giver from a freshly shuffled pool
/// of the givers not yet used. Whatever the shuffles produce, a
/// returned assignment is valid, with the recipients in participant
/// order; with no participants the attempt trivially succeeds.
pub fn try_assign_santas(
    participants: &Vec<Participant>,
    avoids: &Avoids,
    gen: &mut Shuffler,
) -> (r: Result<Assignment, AssignError>)
    ensures
        r matches Ok(a) ==> valid_assignment(a@, participants@, avoids@) && recipient_names(a@)
            == names(participants@),
        r matches Err(e) ==> e == AssignError::Unresolved,
        participants@.len() == 0 ==> r is Ok,
        participants@.len() == 1 ==> r is Err,
        mutually_allowed_pair(participants@, avoids@) ==> r is Ok,
{
    let n = participants.len();
    let ghost all_idx: Seq<usize> = Seq::new(n as nat, |j: int| j as usize);
    let mut pool: Vec<usize> = Vec::new();
    let mut i: usize = 0;
    while i < n
        invariant
            i <= n,
            pool@.len() == i,
            forall|j: int| 0 <= j < i ==> #[trigger] pool@[j] == j,
        decreases n - i,
    {
        pool.push(i);
        i = i + 1;
    }
    let mut entries: Vec<Entry> = Vec::new();
    let ghost mut used: Seq<usize> = Seq::empty();
    proof {
        broadcast use group_to_multiset_ensures;

        assert(pool@ =~= all_idx);
        assert(used.to_multiset().len() == used.len());
        assert(pool@.to_multiset().add(used.to_multiset()) =~= all_idx.to_multiset());
    }
    let mut pi: usize = 0;
    while pi < n
        invariant
            n == participants@.len(),
            pi <= n,
            entries@.len() == pi,
            used.len() == pi,
            forall|j: int| 0 <= j < pi ==> (#[trigger] used[j]) < n,
            forall|j: int|
                0 <= j < pi ==> (#[trigger] entries@[j]).giver@ == participants@[used[j] as int].name@
                    && entries@[j].contact@ == participants@[used[j] as int].contact@,
            forall|j: int|
                0 <= j < pi ==> (#[trigger] entries@[j]).recipient@ == participants@[j].name@,
            forall|j: int| 0 <= j < pi ==> valid_entry(#[trigger] entries@[j], avoids@),
            forall|j: int| 0 <= j < pool@.len() ==> (#[trigger] pool@[j]) < n,
            pool@.to_multiset().add(used.to_multiset()) == all_idx.to_multiset(),
            n == 1 ==> pi == 0,
            all_idx.len() == n,
            forall|j: int| 0 <= j < n ==> #[trigger] all_idx[j] == j,
        decreases n - pi,
    {
        let ghost pool_shuffle_before = pool@;
        gen.shuffle(&mut pool);
        proof {
            broadcast use group_to_multiset_ensures;

            assert forall|j: int| 0 <= j < pool@.len() implies (#[trigger] pool@[j]) < n by {
                assert(pool@.contains(pool@[j]));
                assert(pool_shuffle_before.to_multiset().count(pool@[j]) > 0);
                assert(pool_shuffle_before.contains(pool@[j]));
            }
        }
        match find_valid_candidate(participants, &pool, &participants[pi].name, avoids) {
            None => {
                proof {
                    // With two participants who may give to each other,
                    // the scan cannot come up empty: the participant
                    // other than the current recipient is still in the
                    // pool, and giving to the recipient is allowed.
                    if mutually_allowed_pair(participants@, avoids@) {
                        broadcast use group_to_multiset_ensures;

                        let other: usize = if pi == 0 {
                            1
                        } else {
                            0
                        };
                        assert(all_idx[other as int] == other);
                        assert(all_idx.contains(other));
                        assert(all_idx.to_multiset().count(other) > 0);
                        if pi == 0 {
                            assert(used.to_multiset().len() == used.len());
                            assert(used.to_multiset().count(other) == 0);
                        } else {
                            assert(pi == 1);
                            assert(valid_entry(entries@[0], avoids@));
                            assert(entries@[0].recipient@ == participants@[0].name@);
                            assert(used[0] != 0);
                            assert(used[0] == 1);
                            assert(!used.contains(other)) by {
                                if used.contains(other) {
                                    let j = choose|j: int|
                                        0 <= j < used.len() && used[j] == other;
                                    assert(j == 0);
                                }
                            }
                            assert(used.to_multiset().count(other) == 0);
                        }
                        assert(pool@.to_multiset().add(used.to_multiset()).count(other)
                            == all_idx.to_multiset().count(other));
                        assert(pool@.to_multiset().count(other) > 0);
                        assert(pool@.contains(other));
                        let j = choose|j: int| 0 <= j < pool@.len() && pool@[j] == other;
                        assert(!allowed_pairing(
                            participants@[pool@[j] as int].name@,
                            participants@[pi as int].name@,
                            avoids@,
                        ));
                        assert(names(participants@)[other as int] == participants@[
                            other as int
                        ].name@);
                        assert(names(participants@)[pi as int] == participants@[pi as int].name@);
                        assert(false);
                    }
                }
                return Err(AssignError::Unresolved);
            },
            Some(k) => {
                proof {
                    // A lone participant can never be granted a giver:
                    // the only candidate is that participant themselves.
                    if n == 1 {
                        broadcast use group_to_multiset_ensures;

                        assert(used.to_multiset().len() == used.len());
                        assert(pool@.to_multiset().len() == pool@.len());
                        assert(all_idx.to_multiset().len() == all_idx.len());
                        assert(pool@.len() == 1);
                        assert(pool@.to_multiset().count(pool@[0]) > 0) by {
                            assert(pool@.contains(pool@[0]));
                        }
                        assert(all_idx.to_multiset().count(pool@[0]) > 0);
                        assert(all_idx.contains(pool@[0]));
                        assert(pool@[0] == 0);
                        assert(false);
                    }
                }
                let ghost pool_before = pool@;
                let ghost used_before = used;
                let g = pool.remove(k);
                proof {
                    used = used.push(g);
                }
                let e = Entry {
                    giver: participants[g].name.clone(),
                    contact: participants[g].contact.clone(),
                    recipient: participants[pi].name.clone(),
                };
                entries.push(e);
                proof {
                    broadcast use group_to_multiset_ensures;

                    assert(pool@.to_multiset() == pool_before.to_multiset().remove(g));
                    assert(used.to_multiset() == used_before.to_multiset().insert(g));
                    assert(pool_before.to_multiset().count(g) > 0) by {
                        assert(pool_before.contains(g));
                    }
                    assert(pool@.to_multiset().add(used.to_multiset()) =~= all_idx.to_multiset());
                }
            },
        }
        pi = pi + 1;
    }
    proof {
        broadcast use group_to_multiset_ensures;

        assert(pool@.to_multiset().len() == pool@.len());
        assert(used.to_multiset().len() == used.len());
        assert(all_idx.to_multiset().len() == all_idx.len());
        assert(used.to_multiset() =~= all_idx.to_multiset());
        let f = |x: usize| (participants@[x as int].name@, participants@[x as int].contact@);
        lemma_to_multiset_map(used, all_idx, f);
        assert(used.map_values(f) =~= giver_pairs(entries@));
        assert(all_idx.map_values(f) =~= name_contact_pairs(participants@));
        assert(recipient_names(entries@) =~= names(participants@));
    }
    Ok(Assignment { entries })
}

/// A reordering of the participants admits exactly the same giver and
/// recipient tallies.
pub proof fn lemma_permuted_participants(ps1: Seq<Participant>, ps2: Seq<Participant>)
    requires
        ps1.to_multiset() == ps2.to_multiset(),
    ensures
        name_contact_pairs(ps1).to_multiset() == name_contact_pairs(ps2).to_multiset(),
        names(ps1).to_multiset() == names(ps2).to_multiset(),
{
    let fp = |p: Participant| (p.name@, p.contact@);
    let fm = |p: Participant| p.name@;
    lemma_to_multiset_map(ps1, ps2, fp);
    lemma_to_multiset_map(ps1, ps2, fm);
    assert(ps1.map_values(fp) =~= name_contact_pairs(ps1));
    assert(ps2.map_values(fp) =~= name_contact_pairs(ps2));
    assert(ps1.map_values(fm) =~= names(ps1));
    assert(ps2.map_values(fm) =~= names(ps2));
}

/// The engine's one operation: keep attempting, each time over a fresh
/// random ordering of the participants, until an attempt completes or
/// `max_attempts` of them have been discarded. A lone participant is
/// rejected outright — no derangement of one exists — and that is the
/// only input rejected as infeasible. Any returned assignment is valid
/// for the participants as given.
pub fn assign_santas(
    participants: Vec<Participant>,
    avoids: &Avoids,
    gen: &mut Shuffler,
    max_attempts: u64,
) -> (r: Result<Assignment, AssignError>)
    ensures
        r matches Ok(a) ==> valid_assignment(a@, participants@, avoids@),
        r == Err::<Assignment, AssignError>(AssignError::Infeasible) <==> participants@.len()
            == 1,
        r matches Err(e) ==> e == AssignError::Infeasible || e == AssignError::AttemptsExhausted,
        participants@.len() == 0 && max_attempts > 0 ==> r is Ok,
        mutually_allowed_pair(participants@, avoids@) && max_attempts > 0 ==> r is Ok,
        max_attempts == 0 && participants@.len() != 1 ==> r == Err::<Assignment, AssignError>(
            AssignError::AttemptsExhausted,
        ),
{
    if participants.len() == 1 {
        return Err(AssignError::Infeasible);
    }
    let ghost orig = participants@;
    let mut ps = participants;
    let mut attempt: u64 = 0;
    while attempt < max_attempts
        invariant
            orig == participants@,
            orig.len() != 1,
            ps@.to_multiset() == orig.to_multiset(),
            ps@.len() == orig.len(),
            orig.len() == 0 ==> attempt == 0,
            mutually_allowed_pair(orig, avoids@) ==> attempt == 0,
        decreases max_attempts - attempt,
    {
        gen.shuffle(&mut ps);
        match try_assign_santas(&ps, avoids, gen) {
            Ok(a) => {
                proof {
                    lemma_permuted_participants(ps@, orig);
                    assert(valid_assignment(a@, orig, avoids@));
                }
                return Ok(a);
            },
            Err(_) => {
                proof {
                    // A mutually allowed pair is resolved by every
                    // attempt: the shuffled participants carry the same
                    // two names, in one order or the other.
                    if mutually_allowed_pair(orig, avoids@) {
                        broadcast use group_to_multiset_ensures;

                        lemma_permuted_participants(ps@, orig);
                        lemma_two_elem_multiset(names(orig));
                        let n0 = names(orig)[0];
                        let n1 = names(orig)[1];
                        let m0 = names(ps@)[0];
                        let m1 = names(ps@)[1];
                        assert(names(ps@).len() == 2);
                        assert(names(ps@).to_multiset().count(m0) > 0) by {
                            assert(names(ps@).contains(m0));
                        }
                        assert(names(ps@).to_multiset().count(m1) > 0) by {
                            assert(names(ps@).contains(m1));
                        }
                        assert(m0 == n0 || m0 == n1);
                        assert(m1 == n0 || m1 == n1);
                        assert(names(orig).to_multiset().count(n0) > 0) by {
                            assert(names(orig).contains(n0));
                        }
                        assert(names(ps@).contains(n0));
                        assert(m0 == n0 || m1 == n0);
                        lemma_two_elem_multiset(names(ps@));
                        assert(names(orig).to_multiset().count(n0) == 1);
                        assert(names(orig).to_multiset().count(n1) == 1);
                        assert(names(ps@).to_multiset().count(n0) == 1);
                        assert(names(ps@).to_multiset().count(n1) == 1);
                        assert((m0 == n0 && m1 == n1) || (m0 == n1 && m1 == n0));
                        assert(mutually_allowed_pair(ps@, avoids@));
                        assert(false);
                    }
                }
            },
        }
        attempt = attempt + 1;
    }
    Err(AssignError::AttemptsExhausted)
}

} // verus!
