use abconfig::{
    active_config, config_keys, image_name, image_version, match_literal, parse_config,
    passive_config, ready_for_update, serialize_config, skip_whitespace, take_alnum_hyphen,
    take_digits, update_status, ActiveConf, ConfigKeys, ParseError, PassiveConf, UpdateStatus,
};

#[test]
fn header_consumes_exactly_the_literal() {
    assert_eq!(config_keys("[active]rest"), Ok(("rest", ConfigKeys::Active)));
    assert_eq!(config_keys(" [active]"), Err(ParseError::UnrecognizedVariant));
    assert_eq!(config_keys(""), Err(ParseError::UnrecognizedVariant));
}

#[test]
fn image_name_keeps_trailing_text() {
    assert_eq!(
        image_name("image_name=signed-apertis-rpi4.itb and the rest"),
        Ok((" and the rest", ("signed-apertis-rpi4", ".itb")))
    );
    assert_eq!(
        image_name("image_name=a.itb"),
        Ok(("", ("a", ".itb")))
    );
}

#[test]
fn image_name_errors() {
    // Missing prefix.
    assert_eq!(image_name("imagename=a.itb"), Err(ParseError::TokenMismatch));
    // Empty base name.
    assert_eq!(image_name("image_name=.itb"), Err(ParseError::EmptyRequiredRun));
    // Missing extension after the run.
    assert_eq!(image_name("image_name=abc"), Err(ParseError::TokenMismatch));
}

#[test]
fn image_version_bounds() {
    // Largest representable version.
    assert_eq!(
        image_version("image_version=ver_4294967295"),
        Ok(("", 4294967295))
    );
    // One past the largest: a numeric failure, not a panic.
    assert_eq!(
        image_version("image_version=ver_4294967296"),
        Err(ParseError::InvalidNumeric)
    );
    // Leading zeros stay within range.
    assert_eq!(
        image_version("image_version=ver_000000000000123"),
        Ok(("", 123))
    );
}

#[test]
fn image_version_errors() {
    assert_eq!(image_version("version=ver_1"), Err(ParseError::TokenMismatch));
    assert_eq!(
        image_version("image_version=version_1"),
        Err(ParseError::TokenMismatch)
    );
    assert_eq!(
        image_version("image_version=ver1"),
        Err(ParseError::TokenMismatch)
    );
    // Empty digit run.
    assert_eq!(
        image_version("image_version=ver_"),
        Err(ParseError::EmptyRequiredRun)
    );
    assert_eq!(
        image_version("image_version=ver_x"),
        Err(ParseError::EmptyRequiredRun)
    );
    // The run must end the field.
    assert_eq!(
        image_version("image_version=ver_12a"),
        Err(ParseError::TokenMismatch)
    );
    // Whitespace after the run is fine and left unconsumed.
    assert_eq!(image_version("image_version=ver_12 x"), Ok((" x", 12)));
}

#[test]
fn ready_for_update_false_and_errors() {
    assert_eq!(ready_for_update("ready_for_update_flag=false"), Ok(("", false)));
    assert_eq!(
        ready_for_update("ready_for_update_flag=yes"),
        Err(ParseError::UnrecognizedVariant)
    );
    assert_eq!(ready_for_update("ready="), Err(ParseError::TokenMismatch));
}

#[test]
fn update_status_variants() {
    assert_eq!(
        update_status("update_status=testing"),
        Ok(("", UpdateStatus::Testing))
    );
    assert_eq!(
        update_status("update_status=success"),
        Ok(("", UpdateStatus::Success))
    );
    assert_eq!(
        update_status("update_status=failed"),
        Err(ParseError::UnrecognizedVariant)
    );
    assert_eq!(update_status("status=success"), Err(ParseError::TokenMismatch));
}

#[test]
fn active_config_wrong_header() {
    assert_eq!(
        active_config("[passive]\nimage_name=xx.itb\nimage_version=ver_1"),
        Err(ParseError::UnrecognizedVariant)
    );
}

#[test]
fn passive_config_wrong_header() {
    assert_eq!(
        passive_config("[active]\nready_for_update_flag=true"),
        Err(ParseError::UnrecognizedVariant)
    );
}

#[test]
fn passive_config_flag_only() {
    assert_eq!(
        passive_config("[passive]\nready_for_update_flag=false\nleftover lines"),
        Ok((
            "leftover lines",
            PassiveConf {
                passive_config: ConfigKeys::Passive,
                ready_for_update_flag: false,
                image_name: None,
                image_version: None,
                update_status: None
            }
        ))
    );
}

#[test]
fn passive_config_version_without_name() {
    // The optional fields are independent: a version may be present while
    // the name is absent.
    assert_eq!(
        passive_config("[passive]\nready_for_update_flag=true\nimage_version=ver_7"),
        Ok((
            "",
            PassiveConf {
                passive_config: ConfigKeys::Passive,
                ready_for_update_flag: true,
                image_name: None,
                image_version: Some(7),
                update_status: None
            }
        ))
    );
}

#[test]
fn parse_config_error_propagation() {
    // The active record fails first.
    assert_eq!(parse_config("nonsense"), Err(ParseError::UnrecognizedVariant));
    // An active record alone: the passive parser then fails on empty input.
    assert_eq!(
        parse_config("[active]\nimage_name=a.itb\nimage_version=ver_1\n"),
        Err(ParseError::UnrecognizedVariant)
    );
}

#[test]
fn primitive_matchers() {
    assert_eq!(skip_whitespace(" \t\r\nx y"), "x y");
    assert_eq!(skip_whitespace("xy"), "xy");
    assert_eq!(skip_whitespace(""), "");
    assert_eq!(take_digits("0123x45"), ("0123", "x45"));
    assert_eq!(take_digits("x"), ("", "x"));
    assert_eq!(take_alnum_hyphen("a-B9.rest"), ("a-B9", ".rest"));
    assert_eq!(take_alnum_hyphen("=x"), ("", "=x"));
    assert_eq!(match_literal("abcd", "ab"), Some("cd"));
    assert_eq!(match_literal("abcd", "abcd"), Some(""));
    assert_eq!(match_literal("abcd", "abd"), None);
    assert_eq!(match_literal("a", "ab"), None);
}

#[test]
fn serializer_exact_text() {
    let active = ActiveConf {
        active_config: ConfigKeys::Active,
        image_name: ("demo-1", ".itb"),
        image_version: 42,
    };
    let passive = PassiveConf {
        passive_config: ConfigKeys::Passive,
        ready_for_update_flag: true,
        image_name: None,
        image_version: Some(107),
        update_status: Some(UpdateStatus::Testing),
    };
    let text = serialize_config(&active, &passive);
    assert_eq!(
        text,
        "[active]\nimage_name=demo-1.itb\nimage_version=ver_42\n\
         [passive]\nready_for_update_flag=true\nimage_version=ver_107\nupdate_status=testing"
    );
}

#[test]
fn round_trip_full() {
    let active = ActiveConf {
        active_config: ConfigKeys::Active,
        image_name: ("signed-apertis-rpi4", ".itb"),
        image_version: 4294967295,
    };
    let passive = PassiveConf {
        passive_config: ConfigKeys::Passive,
        ready_for_update_flag: false,
        image_name: Some(("other-image-2", ".itb")),
        image_version: Some(0),
        update_status: Some(UpdateStatus::Success),
    };
    let text = serialize_config(&active, &passive);
    let (rest, (active2, passive2)) = parse_config(&text).unwrap();
    assert_eq!(rest, "");
    assert_eq!(active2, active);
    assert_eq!(passive2, passive);
}

#[test]
fn round_trip_sparse() {
    let active = ActiveConf {
        active_config: ConfigKeys::Active,
        image_name: ("a", ".itb"),
        image_version: 1,
    };
    let passive = PassiveConf {
        passive_config: ConfigKeys::Passive,
        ready_for_update_flag: true,
        image_name: None,
        image_version: None,
        update_status: None,
    };
    let text = serialize_config(&active, &passive);
    let (rest, (active2, passive2)) = parse_config(&text).unwrap();
    assert_eq!(rest, "");
    assert_eq!(active2, active);
    assert_eq!(passive2, passive);
}
