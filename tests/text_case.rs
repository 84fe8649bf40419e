use rcommitlint::text_case::{determine_text_case, TextCase};

#[test]
fn check_happy_cases() {
    assert!(matches!(determine_text_case("testText"), TextCase::Camel));
    assert!(matches!(determine_text_case("TestText"), TextCase::Pascal));
    assert!(matches!(determine_text_case("test-text"), TextCase::Kebab));
    assert!(matches!(determine_text_case("test_text"), TextCase::Snake));
    assert!(matches!(determine_text_case("TEST_TEXT"), TextCase::Scream));
    assert!(matches!(determine_text_case("TEST TEXT"), TextCase::Scream));
    assert!(matches!(determine_text_case("TEST"), TextCase::Upper));
    assert!(matches!(determine_text_case("test"), TextCase::Lower));
    assert!(matches!(
        determine_text_case("TesT-TextT"),
        TextCase::Unknown
    ));
}

#[test]
fn non_ascii_makes_case_unknown() {
    assert_eq!(determine_text_case("t\u{e9}st"), TextCase::Unknown);
    assert_eq!(determine_text_case("a"), TextCase::Lower);
    assert_eq!(determine_text_case("A"), TextCase::Upper);
    assert_eq!(determine_text_case("snake_CASE"), TextCase::Scream);
    assert_eq!(determine_text_case("snake_Case"), TextCase::Unknown);
}
