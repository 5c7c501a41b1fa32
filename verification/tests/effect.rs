use pokemon::{parse_effects, str_eq, to_chars, tuple_name_value_format, EffectPair, GameError};

fn pair(name: &str, value: &str) -> EffectPair {
    EffectPair { name: name.to_string(), value: value.to_string() }
}

#[test]
fn a_single_effect_is_one_pair() {
    assert_eq!(parse_effects("Heal: 20"), Ok(vec![pair("Heal", "20")]));
}

#[test]
fn two_effects_are_two_pairs_in_order() {
    assert_eq!(
        parse_effects("Heal: 999, Status: None"),
        Ok(vec![pair("Heal", "999"), pair("Status", "None")])
    );
}

#[test]
fn a_key_without_a_value_is_missing_its_value() {
    assert_eq!(parse_effects("Heal"), Err(GameError::MissingValue("Heal".to_string())));
}

#[test]
fn a_dangling_key_is_named_without_its_whitespace() {
    assert_eq!(parse_effects("  Heal \t"), Err(GameError::MissingValue("Heal".to_string())));
}

#[test]
fn the_first_dangling_key_is_the_one_reported() {
    assert_eq!(
        parse_effects("Heal: 20, Status, Other"),
        Err(GameError::MissingValue("Status".to_string()))
    );
}

#[test]
fn an_empty_text_has_no_effects() {
    assert_eq!(parse_effects(""), Ok(vec![]));
    assert_eq!(parse_effects("   "), Ok(vec![]));
    assert_eq!(parse_effects(",,,"), Ok(vec![]));
}

#[test]
fn segments_of_two_characters_or_fewer_are_dropped() {
    assert_eq!(parse_effects("ab"), Ok(vec![]));
    assert_eq!(parse_effects("  ab  "), Ok(vec![]));
    assert_eq!(parse_effects("a:"), Ok(vec![]));
    assert_eq!(parse_effects("Heal: 20, x, Status: None"),
        Ok(vec![pair("Heal", "20"), pair("Status", "None")]));
}

#[test]
fn a_segment_of_three_characters_is_kept() {
    assert_eq!(parse_effects("a:b"), Ok(vec![pair("a", "b")]));
    assert_eq!(parse_effects("abc"), Err(GameError::MissingValue("abc".to_string())));
}

#[test]
fn a_trailing_comma_changes_nothing() {
    assert_eq!(parse_effects("Heal: 20,"), Ok(vec![pair("Heal", "20")]));
    assert_eq!(parse_effects(",Heal: 20,,"), Ok(vec![pair("Heal", "20")]));
}

#[test]
fn more_colons_keep_alternating() {
    assert_eq!(parse_effects("a:b:c:d"), Ok(vec![pair("c", "d")]));
    assert_eq!(parse_effects("a:b:c"), Err(GameError::MissingValue("c".to_string())));
}

#[test]
fn an_empty_value_is_a_value() {
    assert_eq!(parse_effects("Heal:"), Ok(vec![pair("Heal", "")]));
    assert_eq!(parse_effects(":20"), Ok(vec![pair("", "20")]));
}

#[test]
fn unicode_whitespace_is_trimmed() {
    assert_eq!(
        parse_effects("\u{3000}Heal\u{2003}:\u{a0}20\u{85}"),
        Ok(vec![pair("Heal", "20")])
    );
}

#[test]
fn inner_whitespace_stays() {
    assert_eq!(parse_effects("Full Heal: 1 0"), Ok(vec![pair("Full Heal", "1 0")]));
}

#[test]
fn characters_outside_ascii_are_counted_as_characters() {
    assert_eq!(parse_effects("é:"), Ok(vec![]));
    assert_eq!(parse_effects("é:ü"), Ok(vec![pair("é", "ü")]));
}

#[test]
fn one_segment_gives_its_last_name_and_value() {
    assert_eq!(tuple_name_value_format("Heal: 20"), Ok(pair("Heal", "20")));
    assert_eq!(tuple_name_value_format(" Status: None"), Ok(pair("Status", "None")));
    assert_eq!(tuple_name_value_format("x:y"), Ok(pair("x", "y")));
    assert_eq!(tuple_name_value_format(":"), Ok(pair("", "")));
}

#[test]
fn one_segment_that_ends_on_a_name_fails() {
    assert_eq!(
        tuple_name_value_format("Heal"),
        Err(GameError::MissingValue("Heal".to_string()))
    );
    assert_eq!(tuple_name_value_format(""), Err(GameError::MissingValue(String::new())));
    assert_eq!(
        tuple_name_value_format("a:b: c "),
        Err(GameError::MissingValue("c".to_string()))
    );
}

#[test]
fn a_comma_is_no_separator_within_a_segment() {
    assert_eq!(tuple_name_value_format("a,b:c"), Ok(pair("a,b", "c")));
}

#[test]
fn equal_strings_are_equal() {
    assert!(str_eq("", ""));
    assert!(str_eq("Potion", "Potion"));
    assert!(str_eq("héllo", "héllo"));
}

#[test]
fn different_strings_are_different() {
    assert!(!str_eq("Potion", "potion"));
    assert!(!str_eq("Potion", "Potio"));
    assert!(!str_eq("Potio", "Potion"));
    assert!(!str_eq("", "x"));
}

#[test]
fn a_string_gives_its_characters() {
    assert_eq!(to_chars(""), Vec::<char>::new());
    assert_eq!(to_chars("a:é"), vec!['a', ':', 'é']);
}
