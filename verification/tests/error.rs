use res_patcher::error::{ConfigError, Error, GrammarError};

#[test]
fn constructors_fill_the_variants() {
    assert_eq!(
        Error::config_missing_field("Sec", "modfile"),
        Error::ConfigError(ConfigError::MissingRequiredField {
            section: "Sec".to_string(),
            field: "modfile",
        })
    );
    assert_eq!(
        Error::config_error("Missing 'Apps' Section"),
        Error::ConfigError(ConfigError::Other("Missing 'Apps' Section".to_string()))
    );
    assert_eq!(
        Error::config_field_parse("Sec", "occur", "why"),
        Error::ConfigError(ConfigError::FieldParseError {
            section: "Sec".to_string(),
            field: "occur",
            msg: "why".to_string(),
        })
    );
    assert_eq!(
        Error::state_error("Missing width"),
        Error::StateError("Missing width".to_string())
    );
}

#[test]
fn clones_are_equal_to_what_they_were_made_from() {
    let errors = [
        Error::ReadError(std::io::ErrorKind::NotFound),
        Error::ParseError(GrammarError::NoKeyValue),
        Error::config_missing_field("S", "sig"),
        Error::config_field_parse("S", "sig", "Invalid hex string length"),
        Error::config_error("Missing section S"),
        Error::state_error("Missing game dir"),
        Error::PatchError { iteration: 3 },
    ];
    for error in &errors {
        assert_eq!(&error.clone(), error);
    }
    assert_ne!(errors[0], Error::ReadError(std::io::ErrorKind::PermissionDenied));
    assert_ne!(errors[1], Error::ParseError(GrammarError::NoSection));
    assert_ne!(errors[6], Error::PatchError { iteration: 4 });
}

#[test]
fn grammar_fault_converts_into_a_parse_error() {
    assert_eq!(
        Error::from(GrammarError::MalformedHeader),
        Error::ParseError(GrammarError::MalformedHeader)
    );
    let converted: Error = GrammarError::NoSection.into();
    assert_eq!(converted, Error::ParseError(GrammarError::NoSection));
}
