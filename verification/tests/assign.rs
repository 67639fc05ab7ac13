use secret_santa::avoid::Avoids;
use secret_santa::engine::{assign_santas, try_assign_santas, AssignError};
use secret_santa::participant::Participant;
use secret_santa::rng::Shuffler;

fn participants(names: &[&str]) -> Vec<Participant> {
    names
        .iter()
        .map(|n| Participant::new(n.to_string(), format!("{}@example.test", n)))
        .collect()
}

fn avoid_pairs(pairs: &[(&str, &str)]) -> Avoids {
    let mut m = Avoids::new();
    for (a, b) in pairs {
        m.insert(a.to_string(), b.to_string());
    }
    m
}

/// Checks the structural guarantees: one entry per participant, giver
/// and recipient names each exactly the participant names, correct
/// contacts, and no self-gifting.
fn check_structure(santas: &secret_santa::assignment::Assignment, names: &[&str]) {
    assert_eq!(santas.len(), names.len());
    for name in names {
        let e = santas.get(&name.to_string()).unwrap();
        assert_eq!(&e.giver, name);
        assert_eq!(e.contact, format!("{}@example.test", name));
        assert_ne!(&e.giver, &e.recipient);
    }
    let mut recipients: Vec<String> = (0..santas.len())
        .map(|i| santas.entry(i).recipient.clone())
        .collect();
    recipients.sort();
    let mut expected: Vec<String> = names.iter().map(|n| n.to_string()).collect();
    expected.sort();
    assert_eq!(recipients, expected);
}

#[test]
fn success_assign() {
    let names = ["1", "2", "3", "4", "5", "6", "7", "8"];
    let avoids = avoid_pairs(&[
        ("1", "2"),
        ("2", "1"),
        ("3", "4"),
        ("4", "3"),
        ("5", "6"),
        ("6", "5"),
        ("7", "8"),
        ("8", "7"),
    ]);
    let mut gen = Shuffler::new();
    for _ in 1..1_000 {
        let santas = assign_santas(participants(&names), &avoids, &mut gen, 10_000).unwrap();
        for i in 0..santas.len() {
            let e = santas.entry(i);
            assert!(santas.get(&e.recipient).is_some());
            assert_ne!(e.giver, e.recipient);
            assert!(avoids.get(&e.giver) != Some(&e.recipient));
            assert!(avoids.get(&e.recipient) != Some(&e.giver));
        }
    }
}

#[test]
fn eight_no_exclusions() {
    let names = ["1", "2", "3", "4", "5", "6", "7", "8"];
    let avoids = Avoids::new();
    let mut gen = Shuffler::new();
    for _ in 0..200 {
        let santas = assign_santas(participants(&names), &avoids, &mut gen, 10_000).unwrap();
        check_structure(&santas, &names);
    }
}

#[test]
fn size_one_is_infeasible() {
    let avoids = Avoids::new();
    let mut gen = Shuffler::new();
    let r = assign_santas(participants(&["solo"]), &avoids, &mut gen, 10_000);
    assert_eq!(r.unwrap_err(), AssignError::Infeasible);
    let r = assign_santas(participants(&["solo"]), &avoids, &mut gen, 0);
    assert_eq!(r.unwrap_err(), AssignError::Infeasible);
}

#[test]
fn size_two_always_swaps() {
    let names = ["north", "south"];
    let avoids = Avoids::new();
    let mut gen = Shuffler::new();
    for _ in 0..100 {
        // A single attempt suffices: success is owed for a mutually
        // allowed pair, not left to the shuffles.
        let santas = assign_santas(participants(&names), &avoids, &mut gen, 1).unwrap();
        assert_eq!(santas.len(), 2);
        let north = santas.get(&"north".to_string()).unwrap();
        assert_eq!(north.recipient, "south");
        let south = santas.get(&"south".to_string()).unwrap();
        assert_eq!(south.recipient, "north");
    }
}

#[test]
fn zero_participants_give_an_empty_assignment() {
    let avoids = Avoids::new();
    let mut gen = Shuffler::new();
    let santas = assign_santas(Vec::new(), &avoids, &mut gen, 1).unwrap();
    assert_eq!(santas.len(), 0);
    assert!(santas.get(&"anyone".to_string()).is_none());
}

#[test]
fn infeasible_exclusions_exhaust_the_attempts() {
    // The only derangement of two participants is the swap, and the
    // swap is forbidden: every attempt dead-ends.
    let names = ["1", "2"];
    let avoids = avoid_pairs(&[("1", "2"), ("2", "1")]);
    let mut gen = Shuffler::new();
    let r = assign_santas(participants(&names), &avoids, &mut gen, 25);
    assert_eq!(r.unwrap_err(), AssignError::AttemptsExhausted);
}

#[test]
fn zero_attempts_allowed_means_exhaustion() {
    let avoids = Avoids::new();
    let mut gen = Shuffler::new();
    let r = assign_santas(participants(&["1", "2", "3"]), &avoids, &mut gen, 0);
    assert_eq!(r.unwrap_err(), AssignError::AttemptsExhausted);
}

#[test]
fn repeated_calls_vary_but_stay_valid() {
    let names = ["1", "2", "3", "4", "5", "6", "7", "8"];
    let avoids = Avoids::new();
    let mut gen = Shuffler::new();
    let mut mappings: Vec<Vec<(String, String)>> = Vec::new();
    for _ in 0..100 {
        let santas = assign_santas(participants(&names), &avoids, &mut gen, 10_000).unwrap();
        check_structure(&santas, &names);
        let mut mapping: Vec<(String, String)> = (0..santas.len())
            .map(|i| {
                let e = santas.entry(i);
                (e.giver.clone(), e.recipient.clone())
            })
            .collect();
        mapping.sort();
        mappings.push(mapping);
    }
    let first = &mappings[0];
    assert!(mappings.iter().any(|m| m != first));
}

#[test]
fn seeded_generator_also_succeeds() {
    let names = ["a", "b", "c"];
    let avoids = Avoids::new();
    let mut gen = Shuffler::from_seed(42);
    let santas = assign_santas(participants(&names), &avoids, &mut gen, 10_000).unwrap();
    check_structure(&santas, &names);
}

#[test]
fn attempt_with_one_participant_dead_ends() {
    let avoids = Avoids::new();
    let mut gen = Shuffler::new();
    let r = try_assign_santas(&participants(&["solo"]), &avoids, &mut gen);
    assert_eq!(r.unwrap_err(), AssignError::Unresolved);
}

#[test]
fn attempt_with_no_participants_succeeds() {
    let avoids = Avoids::new();
    let mut gen = Shuffler::new();
    let santas = try_assign_santas(&Vec::new(), &avoids, &mut gen).unwrap();
    assert_eq!(santas.len(), 0);
}
