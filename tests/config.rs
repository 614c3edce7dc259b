use lean_bridge::config::{check_text, contains_nul, parse_model, ConfigError, Model};

#[test]
fn nul_byte_is_found() {
    assert!(contains_nul("ab\0c"));
    assert!(!contains_nul("abc"));
    assert!(!contains_nul(""));
    assert!(!contains_nul("こんにちは"));
}

#[test]
fn text_with_nul_is_a_configuration_error() {
    assert_eq!(check_text("Hello\0"), Err(ConfigError::NulByte));
    assert_eq!(check_text("Hello|world"), Ok(()));
}

#[test]
fn known_models() {
    assert_eq!(parse_model("count"), Ok(Model::Count));
    assert_eq!(parse_model("count-spans"), Ok(Model::CountSpans));
}

#[test]
fn unknown_model_is_a_configuration_error() {
    assert_eq!(parse_model("grep"), Err(ConfigError::UnknownModel));
    assert_eq!(parse_model("counts"), Err(ConfigError::UnknownModel));
    assert_eq!(parse_model(""), Err(ConfigError::UnknownModel));
}
