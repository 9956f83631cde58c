use dpcp::interpolate::{interpolate_env_value, InterpolateError};
use dpcp::strmap::StrMap;

#[test]
fn interpolate_passthrough_when_no_reference() {
    let lookup = StrMap::new();
    assert_eq!(
        interpolate_env_value("plain-value", &lookup).unwrap(),
        "plain-value"
    );
}

#[test]
fn interpolate_substitutes_known_reference() {
    let mut lookup = StrMap::new();
    lookup.insert("WEBAPP_PORT".to_string(), "3001".to_string());
    assert_eq!(
        interpolate_env_value("http://app.cerby-local.com:${WEBAPP_PORT}/", &lookup).unwrap(),
        "http://app.cerby-local.com:3001/"
    );
}

#[test]
fn interpolate_supports_multiple_references() {
    let mut lookup = StrMap::new();
    lookup.insert("A".to_string(), "1".to_string());
    lookup.insert("B".to_string(), "2".to_string());
    assert_eq!(
        interpolate_env_value("${A}-${B}", &lookup).unwrap(),
        "1-2"
    );
}

#[test]
fn interpolate_errors_on_unknown_reference() {
    let lookup = StrMap::new();
    assert!(interpolate_env_value("${TYPO}", &lookup).is_err());
}

#[test]
fn interpolate_errors_on_unterminated_brace() {
    let lookup = StrMap::new();
    assert!(interpolate_env_value("${OOPS", &lookup).is_err());
}

#[test]
fn substituted_text_is_not_searched_again() {
    let mut lookup = StrMap::new();
    lookup.insert("A".to_string(), "${B}".to_string());
    assert_eq!(interpolate_env_value("<${A}>", &lookup).unwrap(), "<${B}>");
}

#[test]
fn dollars_and_braces_alone_are_text() {
    let mut lookup = StrMap::new();
    lookup.insert("A".to_string(), "x".to_string());
    assert_eq!(interpolate_env_value("$A {A} } $$", &lookup).unwrap(), "$A {A} } $$");
    assert_eq!(interpolate_env_value("$${A}", &lookup).unwrap(), "$x");
    assert_eq!(interpolate_env_value("é${A}ü", &lookup).unwrap(), "éxü");
    assert_eq!(interpolate_env_value("", &lookup).unwrap(), "");
}

#[test]
fn empty_and_nested_names_are_looked_up_as_they_stand() {
    let mut lookup = StrMap::new();
    lookup.insert("".to_string(), "nothing".to_string());
    lookup.insert("a${b".to_string(), "odd".to_string());
    assert_eq!(interpolate_env_value("${}", &lookup).unwrap(), "nothing");
    assert_eq!(interpolate_env_value("${a${b}}", &lookup).unwrap(), "odd}");
}

#[test]
fn first_failing_reference_decides() {
    let mut lookup = StrMap::new();
    lookup.insert("A".to_string(), "1".to_string());
    match interpolate_env_value("${A}${B}${C", &lookup) {
        Err(InterpolateError::Unknown { name, value }) => {
            assert_eq!(name, "B");
            assert_eq!(value, "${A}${B}${C");
        }
        other => panic!("{:?}", other),
    }
    match interpolate_env_value("${A}${C", &lookup) {
        Err(InterpolateError::Unterminated { value }) => assert_eq!(value, "${A}${C"),
        other => panic!("{:?}", other),
    }
}

#[test]
fn interpolation_errors_read_as_documented() {
    let lookup = StrMap::new();
    assert_eq!(
        interpolate_env_value("a${TYPO}", &lookup).unwrap_err().message(),
        "custom env value references unknown variable \"${TYPO}\": a${TYPO}"
    );
    assert_eq!(
        interpolate_env_value("a${OOPS", &lookup).unwrap_err().message(),
        "unterminated \"${\" in custom env value: a${OOPS"
    );
}
