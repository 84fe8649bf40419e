use rcommitlint::rules::ValidationRules;

#[test]
fn default_rules() {
    let a = ValidationRules::default();
    let b = ValidationRules::default();
    assert!(a.topic.required);
    assert!(!a.scope.required);
    assert!(a.description.required);
    assert_eq!(a.description.max_length, 120);
    assert!(a.description.space_after_colon);
    assert!(!a.body.required);
    assert_eq!(a.body.min_length, 20);
    assert_eq!(a.body.max_length, 350);
    assert!(a.footers.allow_multi_line);
    assert_eq!(a.topic.allowed, b.topic.allowed);
    assert_eq!(
        a.topic.allowed,
        vec!["chore", "feat", "fix", "refactor", "test", "docs"]
    );
    assert_eq!(a.scope.allowed, vec!["api", "cli", "rules", "parsing", "lexing"]);
    assert_eq!(a.body.max_length, b.body.max_length);
}
