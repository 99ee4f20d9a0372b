//! Predicate codes and names.
use verax::predicate::{core_predicates, Predicate};

#[test]
fn predicate_test_all_predicates_round_trip() {
    for p in core_predicates().iter() {
        let v = p.to_u8();
        let back = Predicate::from_u8(v).unwrap();
        assert_eq!(*p, back);
    }
}

#[test]
fn predicate_test_predicate_names() {
    assert_eq!(Predicate::Attests.name(), "ATTESTS");
    assert_eq!(Predicate::Revokes.name(), "REVOKES");
}

#[test]
fn predicate_test_invalid_predicate() {
    assert!(Predicate::from_u8(255).is_err());
}

#[test]
fn predicate_codes_are_zero_through_eight_in_order() {
    let all = core_predicates();
    assert_eq!(all.len(), 9);
    for (i, p) in all.iter().enumerate() {
        assert_eq!(p.to_u8() as usize, i);
    }
    assert!(Predicate::from_u8(9).is_err());
    assert_eq!(Predicate::from_u8(8).unwrap(), Predicate::Recovers);
}

#[test]
fn predicate_names_and_descriptions() {
    assert_eq!(Predicate::DerivedFrom.name(), "DERIVED_FROM");
    assert_eq!(Predicate::CompliesWith.name(), "COMPLIES_WITH");
    assert_eq!(Predicate::Recovers.description(), "Guardian authorises replacement of a lost key");
}
