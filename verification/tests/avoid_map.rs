use secret_santa::avoid::Avoids;
use secret_santa::engine::valid_santa_for_participant;
use secret_santa::participant::Participant;

#[test]
fn empty_relation_forbids_nothing() {
    let m = Avoids::new();
    assert!(m.get(&"anyone".to_string()).is_none());
}

#[test]
fn a_later_insert_shadows_an_earlier_one() {
    let mut m = Avoids::new();
    m.insert("1".to_string(), "2".to_string());
    m.insert("1".to_string(), "3".to_string());
    assert_eq!(m.get(&"1".to_string()), Some(&"3".to_string()));
    assert!(m.get(&"2".to_string()).is_none());
    assert!(m.get(&"3".to_string()).is_none());
}

#[test]
fn both_directions_need_their_own_entry() {
    let mut m = Avoids::new();
    m.insert("east".to_string(), "west".to_string());
    assert_eq!(m.get(&"east".to_string()), Some(&"west".to_string()));
    assert!(m.get(&"west".to_string()).is_none());
}

#[test]
fn self_gifting_is_never_valid() {
    let m = Avoids::new();
    assert!(!valid_santa_for_participant(
        &"santa".to_string(),
        &"santa".to_string(),
        &m
    ));
    assert!(valid_santa_for_participant(
        &"santa".to_string(),
        &"elf".to_string(),
        &m
    ));
}

#[test]
fn the_recipient_entry_decides_validity() {
    // The engine consults the recipient's entry: with only
    // elf -> santa recorded, santa may not give to elf, while
    // elf may still give to santa.
    let mut m = Avoids::new();
    m.insert("elf".to_string(), "santa".to_string());
    assert!(!valid_santa_for_participant(
        &"santa".to_string(),
        &"elf".to_string(),
        &m
    ));
    assert!(valid_santa_for_participant(
        &"elf".to_string(),
        &"santa".to_string(),
        &m
    ));
}

#[test]
fn participant_keeps_name_and_contact() {
    let p = Participant::new("santa".to_string(), "santa@northpole.test".to_string());
    assert_eq!(p.name, "santa");
    assert_eq!(p.contact, "santa@northpole.test");
}
