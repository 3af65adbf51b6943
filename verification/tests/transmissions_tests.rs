use wagner_host::transmissions::Decision;

#[test]
fn decision_from_answer() {
    assert_eq!(Decision::from_answer("allow"), Decision::Allow);
    assert_eq!(Decision::from_answer("YES"), Decision::Allow);
    assert_eq!(Decision::from_answer("deny"), Decision::Deny);
    assert_eq!(Decision::from_answer("anything else"), Decision::Deny);
}

#[test]
fn answers_are_trimmed_before_deciding() {
    assert_eq!(Decision::from_answer("  Approve \n"), Decision::Allow);
    assert_eq!(Decision::from_answer(""), Decision::Deny);
}
