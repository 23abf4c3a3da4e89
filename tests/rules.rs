use game_of_life::rules::{self, Rules};

#[test]
fn conways_survival_and_birth_counts() {
    let rules = rules::conways();

    for n in 0..=8u8 {
        assert_eq!(rules.survives(n), n == 2 || n == 3, "survives({})", n);
        assert_eq!(rules.birthed(n), n == 3, "birthed({})", n);
    }
    assert!(!rules.survives(255));
    assert!(!rules.birthed(255));
}

#[test]
fn custom_rules_are_looked_up_by_membership() {
    // HighLife: B36/S23
    let rules = Rules {
        b: vec![3, 6],
        s: vec![2, 3],
    };

    assert!(rules.birthed(6));
    assert!(rules.birthed(3));
    assert!(!rules.birthed(2));
    assert!(!rules.survives(6));
}

#[test]
fn empty_rules_never_match() {
    let rules = Rules {
        b: vec![],
        s: vec![],
    };

    for n in 0..=8u8 {
        assert!(!rules.survives(n));
        assert!(!rules.birthed(n));
    }
}
