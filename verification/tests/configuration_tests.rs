use skyscanner::configuration::Environment;

#[test]
fn environment_names_round_trip() {
    assert_eq!(Environment::Local.as_str(), "local");
    assert_eq!(Environment::Production.as_str(), "production");
}

#[test]
fn environment_parse_ignores_ascii_case() {
    assert!(matches!(Environment::try_from("local"), Ok(Environment::Local)));
    assert!(matches!(Environment::try_from("LOCAL"), Ok(Environment::Local)));
    assert!(matches!(
        Environment::try_from("Production"),
        Ok(Environment::Production)
    ));
}

#[test]
fn environment_parse_rejects_unknown_names() {
    let err = Environment::try_from("qa").unwrap_err();
    assert_eq!(
        err,
        "qa is not a supported environment, Use either `local` or `production`"
    );
}
