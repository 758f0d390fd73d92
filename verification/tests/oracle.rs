use policysql::oracle::{TruthValue, bool_truth, sqlite_like};

#[test]
fn three_valued_logic_matches_sql() {
    assert_eq!(TruthValue::True.and(TruthValue::Unknown), TruthValue::Unknown);
    assert_eq!(TruthValue::False.and(TruthValue::Unknown), TruthValue::False);
    assert_eq!(TruthValue::True.or(TruthValue::Unknown), TruthValue::True);
    assert_eq!(TruthValue::False.or(TruthValue::Unknown), TruthValue::Unknown);
    assert_eq!(TruthValue::Unknown.not(), TruthValue::Unknown);
    assert_eq!(TruthValue::True.not(), TruthValue::False);
}

#[test]
fn truth_values_obey_de_morgan_on_every_input() {
    let all = [TruthValue::True, TruthValue::False, TruthValue::Unknown];
    for a in all {
        for b in all {
            assert_eq!(a.and(b).not(), a.not().or(b.not()));
            assert_eq!(a.or(b).not(), a.not().and(b.not()));
            assert_eq!(a.and(b), b.and(a));
        }
    }
    for a in [true, false] {
        for b in [true, false] {
            assert_eq!(bool_truth(a).and(bool_truth(b)), bool_truth(a && b));
        }
    }
}

#[test]
fn like_is_ascii_case_insensitive_with_wildcards() {
    assert!(sqlite_like("Tenant_1", "tenant%"));
    assert!(sqlite_like("abc", "a_c"));
    assert!(!sqlite_like("abc", "a_"));
    assert!(sqlite_like("", "%"));
    assert!(!sqlite_like("abc", ""));
    assert!(sqlite_like("ABC", "%b%"));
}
