use gitmoto::template::Error;

fn values(pairs: &[(char, &str)]) -> Vec<(char, String)> {
    pairs.iter().map(|(c, s)| (*c, s.to_string())).collect()
}

#[test]
fn plain_text_is_unchanged() {
    assert_eq!(
        gitmoto::template::format("Hello Template World!", &values(&[])),
        Ok("Hello Template World!".to_string()),
    );
}

#[test]
fn trailing_percent_is_rejected() {
    assert_eq!(gitmoto::template::format("Hello Template World!%", &values(&[])), Err(Error::TrailingPercent));
}

#[test]
fn double_percent_is_a_literal_percent() {
    assert_eq!(
        gitmoto::template::format("Hello Template World!%%", &values(&[])),
        Ok("Hello Template World!%".to_string()),
    );
}

#[test]
fn unknown_format_character_is_rejected() {
    assert_eq!(
        gitmoto::template::format("Hello %s World!", &values(&[])),
        Err(Error::UnknownFormatCharacter('s')),
    );
}

#[test]
fn registered_value_is_substituted() {
    assert_eq!(
        gitmoto::template::format("Hello %s World!", &values(&[('s', "Template")])),
        Ok("Hello Template World!".to_string()),
    );
}

#[test]
fn substitution_and_literal_percent_combine() {
    assert_eq!(
        gitmoto::template::format("Hello %s%% World!", &values(&[('s', "Template")])),
        Ok("Hello Template% World!".to_string()),
    );
}

#[test]
fn several_substitutions_in_order() {
    assert_eq!(
        gitmoto::template::format("Hello %a%b%a%c World!", &values(&[('a', "A"), ('b', "B"), ('c', "C")])),
        Ok("Hello ABAC World!".to_string()),
    );
}

#[test]
fn error_messages_render() {
    assert_eq!(
        Error::TrailingPercent.message().as_str(),
        "Malformed percent sequence at end of string",
    );
    assert_eq!(
        Error::UnknownFormatCharacter('q').message().as_str(),
        "Unknown format character q",
    );
}
