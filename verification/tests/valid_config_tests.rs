//! Tests for configuration validation and the precision order.

use knoll::config::{Config, ConfigGroup, ConfigGroups};
use knoll::valid_config::{
    sort_groups_by_precision, validate_config_groups, Error, ValidConfigGroup,
};

/// Build a config that only names a display.
fn named(uuid: &str) -> Config {
    Config {
        uuid: uuid.to_owned(),
        ..Config::default()
    }
}

/// Check that `ValidConfigGroup::from` correctly reports an error for an
/// empty group.
#[test]
fn test_valid_config_from_empty() {
    let result = ValidConfigGroup::from(ConfigGroup { configs: vec![] });
    assert!(
        matches!(result, Err(Error::EmptyGroup)),
        "Failed to detect empty configuration."
    );
}

/// Check that `ValidConfigGroup::from` correctly reports an error for
/// duplicate configurations.
#[test]
fn test_valid_config_from_duplicate() {
    let result = ValidConfigGroup::from(ConfigGroup {
        configs: vec![
            Config {
                uuid: "abcdef1234".to_owned(),
                enabled: Some(false),
                ..Config::default()
            },
            Config {
                uuid: "abcdef1234".to_owned(),
                enabled: Some(false),
                ..Config::default()
            },
        ],
    });
    assert!(
        matches!(
        result,
        Err(Error::DuplicateDisplays(uuids)) if uuids.len() == 1 && uuids.contains(&"abcdef1234".to_owned())),
        "Failed to detect duplicate configuration."
    );

    let result = ValidConfigGroup::from(ConfigGroup {
        configs: vec![
            Config {
                uuid: "abcdef1234".to_owned(),
                enabled: Some(false),
                ..Config::default()
            },
            Config {
                uuid: "abcdef1234".to_owned(),
                enabled: Some(false),
                ..Config::default()
            },
            Config {
                uuid: "foobarbaz".to_owned(),
                enabled: Some(false),
                ..Config::default()
            },
            Config {
                uuid: "foobarbaz".to_owned(),
                enabled: Some(false),
                ..Config::default()
            },
        ],
    });
    assert!(
        matches!(
            result,
            Err(Error::DuplicateDisplays(uuids)) if uuids.len() == 2 && uuids.contains(&"abcdef1234".to_owned()) && uuids.contains(&"foobarbaz".to_owned())
        ),
        "Failed to detect duplicate configuration."
    );
}

/// Test that `ValidConfigGroup::from` correctly reports an error for
/// mirror_of with incompatible display options.
#[test]
fn test_valid_config_from_invalid_mirror() {
    let result = ValidConfigGroup::from(ConfigGroup {
        configs: vec![Config {
            uuid: "abcdef1234".to_owned(),
            mirror_of: Some("5678defghi".to_owned()),
            enabled: Some(true), // enabled is allowed with mirror_of
            origin: Some(knoll::displays::Point { x: 0, y: 0 }), // origin is not allowed with mirror_of
            ..Config::default()
        }],
    });
    assert!(
        matches!(
            result,
            Err(Error::InvalidMirrorConfig(uuid)) if uuid == "abcdef1234"
        ),
        "Failed to detect invalid mirror configuration."
    );
}

/// Test that `ValidConfigGroup::from` correctly reports an error when a
/// display mirrors a display that itself is mirroring.
#[test]
fn test_valid_config_from_mirror_of_mirror() {
    let cg = ConfigGroup {
        configs: vec![
            Config {
                uuid: "A".to_owned(),
                mirror_of: Some("B".to_owned()),
                enabled: Some(true),
                ..Config::default()
            },
            Config {
                uuid: "B".to_owned(),
                mirror_of: Some("C".to_owned()),
                enabled: Some(true),
                ..Config::default()
            },
            Config {
                uuid: "C".to_owned(),
                enabled: Some(true),
                ..Config::default()
            },
        ],
    };

    let result = ValidConfigGroup::from(cg);
    assert!(
        matches!(result, Err(Error::MirrorOfMirror(uuid, target_uuid)) if uuid == "A" && target_uuid == "B"),
        "Failed to detect mirror-of-mirror configuration."
    );
}

/// Test that `ValidConfigGroup::from` correctly reports an error when
/// brightness, in thousandths, is outside the allowed range.
#[test]
fn test_valid_config_from_invalid_brightness() {
    // Below valid range
    let result_low = ValidConfigGroup::from(ConfigGroup {
        configs: vec![Config {
            uuid: "low-bright".to_owned(),
            brightness: Some(-100),
            ..Config::default()
        }],
    });
    assert!(
        matches!(result_low, Err(Error::InvalidBrightness(uuid, value)) if uuid == "low-bright" && value == -100),
        "Failed to detect brightness below the valid range."
    );

    // Above valid range
    let result_high = ValidConfigGroup::from(ConfigGroup {
        configs: vec![Config {
            uuid: "high-bright".to_owned(),
            brightness: Some(1200),
            ..Config::default()
        }],
    });
    assert!(
        matches!(result_high, Err(Error::InvalidBrightness(uuid, value)) if uuid == "high-bright" && value == 1200),
        "Failed to detect brightness above the valid range."
    );
}

/// Test that `validate_config_groups` detects duplicate configuration groups.
#[test]
fn test_config_validation_duplicates() {
    let result = validate_config_groups(ConfigGroups {
        groups: vec![
            ConfigGroup {
                configs: vec![Config {
                    uuid: "abcdef1234".to_owned(),
                    enabled: Some(false),
                    ..Config::default()
                }],
            },
            ConfigGroup {
                configs: vec![Config {
                    uuid: "abcdef1234".to_owned(),
                    enabled: Some(false),
                    ..Config::default()
                }],
            },
        ],
    });
    assert!(
        matches!(result, Err(Error::DuplicateGroups(groups)) if
            groups.len() == 1 &&
            groups.iter().all(|cg| cg.uuids.len() == 1 && cg.uuids.contains(&"abcdef1234".to_owned()))),
        "Failed to detect duplicate configuration groups."
    );

    let result = validate_config_groups(ConfigGroups {
        groups: vec![
            ConfigGroup {
                configs: vec![
                    Config {
                        uuid: "abcdef1234".to_owned(),
                        enabled: Some(false),
                        ..Config::default()
                    },
                    Config {
                        uuid: "foobarbaz".to_owned(),
                        enabled: Some(false),
                        ..Config::default()
                    },
                ],
            },
            ConfigGroup {
                configs: vec![
                    Config {
                        uuid: "foobarbaz".to_owned(),
                        enabled: Some(false),
                        ..Config::default()
                    },
                    Config {
                        uuid: "abcdef1234".to_owned(),
                        enabled: Some(false),
                        ..Config::default()
                    },
                ],
            },
        ],
    });
    assert!(
        matches!(result, Err(Error::DuplicateGroups(groups)) if
            groups.len() == 1 &&
            groups.iter().all(|cg| cg.uuids.len() == 2 && cg.uuids.contains(&"abcdef1234".to_owned()) && cg.uuids.contains(&"foobarbaz".to_owned()))),
        "Failed to detect duplicate configuration groups."
    );
}

/// Test that sorting configuration groups works as expected.
#[test]
fn test_config_group_sorting() {
    let configs = vec![
        vec!["a"],
        vec!["b"],
        vec!["c"],
        vec!["a", "b"],
        vec!["a", "c"],
        vec!["a", "b", "c"],
    ];

    fn convert(vec: Vec<&str>) -> ValidConfigGroup {
        ValidConfigGroup {
            uuids: vec.into_iter().map(String::from).collect(),
            configs: vec![],
        }
    }

    let groups: Vec<ValidConfigGroup> = configs.into_iter().map(convert).collect();
    let sorted = sort_groups_by_precision(groups);
    let group_uuids: Vec<Vec<String>> = sorted.iter().map(|vcg| vcg.uuids.clone()).collect();
    let expected: Vec<Vec<String>> = vec![
        vec!["a".to_owned(), "b".to_owned(), "c".to_owned()],
        vec!["a".to_owned(), "b".to_owned()],
        vec!["a".to_owned(), "c".to_owned()],
        vec!["a".to_owned()],
        vec!["b".to_owned()],
        vec!["c".to_owned()],
    ];
    assert_eq!(group_uuids, expected);
}

/// A group with several distinct, individually valid records is accepted,
/// and its UUID set has exactly as many elements as the group has records.
#[test]
fn test_valid_group_accepted_with_all_uuids() {
    let result = ValidConfigGroup::from(ConfigGroup {
        configs: vec![named("A"), named("B"), named("C")],
    });
    match result {
        Ok(v) => {
            assert_eq!(v.uuids.len(), 3);
            assert!(v.uuids.contains(&"A".to_owned()));
            assert!(v.uuids.contains(&"B".to_owned()));
            assert!(v.uuids.contains(&"C".to_owned()));
        }
        Err(_) => panic!("Expected the group to be accepted."),
    }
}

/// A mirroring record with only `enabled` set besides the target is valid.
#[test]
fn test_mirror_with_enabled_accepted() {
    let result = ValidConfigGroup::from(ConfigGroup {
        configs: vec![
            Config {
                uuid: "A".to_owned(),
                mirror_of: Some("B".to_owned()),
                enabled: Some(true),
                ..Config::default()
            },
            named("B"),
        ],
    });
    assert!(result.is_ok());
}

/// Validation of several valid, distinct groups succeeds and sorts the
/// most precise scene first.
#[test]
fn test_config_groups_sorted_by_precision() {
    let result = validate_config_groups(ConfigGroups {
        groups: vec![
            ConfigGroup {
                configs: vec![named("A")],
            },
            ConfigGroup {
                configs: vec![named("A"), named("B")],
            },
        ],
    });
    match result {
        Ok(groups) => {
            assert_eq!(groups.len(), 2);
            assert_eq!(groups[0].uuids.len(), 2);
            assert_eq!(groups[1].uuids.len(), 1);
        }
        Err(_) => panic!("Expected validation to succeed."),
    }
}
