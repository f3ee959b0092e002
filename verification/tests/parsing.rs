use abconfig::{
    config_keys, image_name, image_version, parse_config, ready_for_update, update_status,
    ActiveConf, ConfigKeys, ParseError, PassiveConf, UpdateStatus,
};

#[test]
fn test_config_keys() {
    assert_eq!(config_keys("[active]"), Ok(("", ConfigKeys::Active)));
    assert_eq!(config_keys("[passive]"), Ok(("", ConfigKeys::Passive)));
    assert_eq!(
        config_keys("[passive]remaining"),
        Ok(("remaining", ConfigKeys::Passive))
    );
    assert_eq!(
        config_keys("prefix[passive]remaining"),
        Err(ParseError::UnrecognizedVariant)
    );
    assert_eq!(config_keys("active"), Err(ParseError::UnrecognizedVariant));
    assert_eq!(config_keys("active]"), Err(ParseError::UnrecognizedVariant));
    assert_eq!(config_keys("[]"), Err(ParseError::UnrecognizedVariant));
}

#[test]
fn test_image_name() {
    assert_eq!(
        image_name("image_name=signed-apertis-rpi4.itbblah"),
        Ok(("blah", ("signed-apertis-rpi4", ".itb")))
    );
    assert_eq!(
        image_name("image_name=example.org:8080"),
        Err(ParseError::TokenMismatch)
    );
    assert_eq!(
        image_name("image_name=some-subsite.example.org:8080"),
        Err(ParseError::TokenMismatch)
    );
    assert_eq!(
        image_name("image_name=example.123"),
        Err(ParseError::TokenMismatch)
    );
}

#[test]
fn test_image_version() {
    assert_eq!(
        image_version("image_version=ver_612634867"),
        Ok(("", 612634867))
    );
    assert_eq!(
        image_version("image_version=ver_111.222.345"),
        Err(ParseError::TokenMismatch)
    );
}

#[test]
fn test_ready_for_update() {
    assert_eq!(
        ready_for_update("ready_for_update_flag=true"),
        Ok(("", true))
    );
}

#[test]
fn test_update_status() {
    assert_eq!(
        update_status("update_status=updating"),
        Ok(("", UpdateStatus::Updating))
    );
}

#[test]
fn test_active_conf() {
    assert_eq!(
        abconfig::active_config(
            "
                [active]
            image_name=xx.itb
            image_version=ver_123 "
        ),
        Ok((
            "",
            ActiveConf {
                active_config: ConfigKeys::Active,
                image_name: ("xx", ".itb"),
                image_version: 123
            }
        ))
    );
}

#[test]
fn test_passive_conf() {
    assert_eq!(
        abconfig::passive_config(
            "
                [passive]
                ready_for_update_flag=true
                image_name=xx.itb
                image_version=ver_123
                update_status=updating "
        ),
        Ok((
            "",
            PassiveConf {
                passive_config: ConfigKeys::Passive,
                ready_for_update_flag: true,
                image_name: Some(("xx", ".itb")),
                image_version: Some(123),
                update_status: Some(UpdateStatus::Updating)
            }
        ))
    );
    assert_eq!(
        abconfig::passive_config(
            "
                [passive]
                ready_for_update_flag=false
                image_name=
                image_version=none
                update_status=none "
        ),
        Ok((
            "image_name=
                image_version=none
                update_status=none ",
            PassiveConf {
                passive_config: ConfigKeys::Passive,
                ready_for_update_flag: false,
                image_name: None,
                image_version: None,
                update_status: None
            }
        ))
    );
}

#[test]
fn test_parse_config() {
    assert_eq!(
        parse_config(
            "[active]
                image_name=xx.itb
                image_version=ver_34488734
                
                [passive]
                ready_for_update_flag=true
                image_name=xx.itb
                image_version=ver_34488735
                update_status=updating"
        ),
        Ok((
            "",
            (
                ActiveConf {
                    active_config: ConfigKeys::Active,
                    image_name: ("xx", ".itb"),
                    image_version: 34488734
                },
                PassiveConf {
                    passive_config: ConfigKeys::Passive,
                    ready_for_update_flag: true,
                    image_name: Some(("xx", ".itb")),
                    image_version: Some(34488735),
                    update_status: Some(UpdateStatus::Updating)
                }
            )
        ))
    );
    assert_eq!(
        parse_config(
            "[active]
                image_name=xx.itb
                image_version=ver_34488734
                
                [passive]
                ready_for_update_flag=false
                image_name=
                image_version=ver_34488735
                update_status=updating"
        ),
        Ok((
            "image_name=
                image_version=ver_34488735
                update_status=updating",
            (
                ActiveConf {
                    active_config: ConfigKeys::Active,
                    image_name: ("xx", ".itb"),
                    image_version: 34488734
                },
                PassiveConf {
                    passive_config: ConfigKeys::Passive,
                    ready_for_update_flag: false,
                    image_name: None,
                    image_version: None,
                    update_status: None
                }
            )
        ))
    );
}
