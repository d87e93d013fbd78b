//! Tests for the resolution pipeline: group resolution, mode selection,
//! and the transactional apply.

use knoll::config::{Config, ConfigGroup};
use knoll::displays::{Point, Rotation};
use knoll::fake_displays::{FakeDisplay, FakeDisplayMode, FakeDisplayState};
use knoll::knoll::{
    daemon_reconfigure, find_most_precise_config_group, pipeline_apply, select_mode,
    state_to_config, Error,
};
use knoll::valid_config::ValidConfigGroup;

/// A display mode for the given display.
fn mode(uuid: &str, scaled: bool, depth: usize, freq: usize, w: i64, h: i64) -> FakeDisplayMode {
    FakeDisplayMode {
        uuid: uuid.to_owned(),
        scaled,
        color_depth: depth,
        frequency: freq,
        extents: Point { x: w, y: h },
    }
}

/// A display with the given UUID and modes; the first mode is current.
fn display(uuid: &str, modes: Vec<FakeDisplayMode>) -> FakeDisplay {
    FakeDisplay {
        uuid: uuid.to_owned(),
        mirror_of: None,
        enabled: true,
        origin: Point { x: 0, y: 0 },
        rotation: Rotation::Zero,
        mode: modes[0].clone(),
        modes,
        brightness: Some(500),
    }
}

/// A validated group naming the given displays with bare records.
fn group(uuids: Vec<&str>) -> ValidConfigGroup {
    let configs: Vec<Config> = uuids
        .iter()
        .map(|u| Config {
            uuid: (*u).to_owned(),
            ..Config::default()
        })
        .collect();
    ValidConfigGroup {
        uuids: uuids.into_iter().map(String::from).collect(),
        configs,
    }
}

/// Given attached displays {A} and candidate groups [{A,B}, {A}],
/// resolution picks {A}: the only feasible candidate, even though {A,B} is
/// more precise on paper.
#[test]
fn test_resolution_prefers_feasible_group() {
    let state = FakeDisplayState::new(vec![display("A", vec![mode("A", false, 32, 60, 800, 600)])]);
    let groups = vec![group(vec!["A", "B"]), group(vec!["A"])];
    match find_most_precise_config_group(&groups, &state) {
        Ok(g) => assert_eq!(g.uuids, vec!["A".to_owned()]),
        Err(e) => panic!("Expected a resolution, got {:?}", e),
    }
}

/// Given attached displays {A,B,C}, a feasible group naming {A,B,C} wins
/// over a feasible group naming only {A,B}.
#[test]
fn test_resolution_prefers_more_precise_group() {
    let state = FakeDisplayState::new(vec![
        display("A", vec![mode("A", false, 32, 60, 800, 600)]),
        display("B", vec![mode("B", false, 32, 60, 800, 600)]),
        display("C", vec![mode("C", false, 32, 60, 800, 600)]),
    ]);
    let groups = vec![group(vec!["A", "B"]), group(vec!["A", "B", "C"])];
    match find_most_precise_config_group(&groups, &state) {
        Ok(g) => assert_eq!(g.uuids.len(), 3),
        Err(e) => panic!("Expected a resolution, got {:?}", e),
    }
}

/// Given attached displays {A,B} and candidate groups [{A},{B}], both
/// feasible and of equal size, resolution fails as ambiguous and lists
/// both contenders.
#[test]
fn test_resolution_ambiguous_groups() {
    let state = FakeDisplayState::new(vec![
        display("A", vec![mode("A", false, 32, 60, 800, 600)]),
        display("B", vec![mode("B", false, 32, 60, 800, 600)]),
    ]);
    let groups = vec![group(vec!["A"]), group(vec!["B"])];
    match find_most_precise_config_group(&groups, &state) {
        Err(Error::AmbiguousConfigGroup(ms)) => {
            assert_eq!(ms.len(), 2);
            assert_eq!(ms[0].uuids, vec!["A".to_owned()]);
            assert_eq!(ms[1].uuids, vec!["B".to_owned()]);
        }
        other => panic!("Expected an ambiguity error, got {:?}", other),
    }
}

/// With no feasible candidate, resolution fails naming the attached
/// displays.
#[test]
fn test_resolution_no_matching_group() {
    let state = FakeDisplayState::new(vec![display("A", vec![mode("A", false, 32, 60, 800, 600)])]);
    let groups = vec![group(vec!["B"])];
    match find_most_precise_config_group(&groups, &state) {
        Err(Error::NoMatchingConfigGroup(us)) => assert_eq!(us, vec!["A".to_owned()]),
        other => panic!("Expected a no-matching-group error, got {:?}", other),
    }
}

/// Selecting against a record that constrains no field fails as ambiguous
/// when the display offers two modes, and fails as unmatched when it
/// offers none; with exactly one mode it returns that mode.
#[test]
fn test_select_mode_unconstrained() {
    let two = display(
        "A",
        vec![
            mode("A", false, 32, 60, 800, 600),
            mode("A", false, 32, 60, 1024, 768),
        ],
    );
    let config = Config {
        uuid: "A".to_owned(),
        ..Config::default()
    };
    assert!(matches!(
        select_mode(&two, &config),
        Err(Error::AmbiguousDisplayMode(u, ms)) if u == "A" && ms.len() == 2
    ));

    let one = display("A", vec![mode("A", false, 32, 60, 800, 600)]);
    match select_mode(&one, &config) {
        Ok(m) => assert_eq!(m.extents, Point { x: 800, y: 600 }),
        other => panic!("Expected the single mode, got {:?}", other),
    }
}

/// Selecting with constraints picks the unique matching mode regardless of
/// which fields are constrained, and reports a record matching no mode.
#[test]
fn test_select_mode_constrained() {
    let d = display(
        "A",
        vec![
            mode("A", false, 32, 60, 800, 600),
            mode("A", true, 32, 120, 800, 600),
        ],
    );
    let config = Config {
        uuid: "A".to_owned(),
        frequency: Some(120),
        ..Config::default()
    };
    match select_mode(&d, &config) {
        Ok(m) => {
            assert!(m.scaled);
            assert_eq!(m.frequency, 120);
        }
        other => panic!("Expected the scaled mode, got {:?}", other),
    }

    let config = Config {
        uuid: "A".to_owned(),
        frequency: Some(75),
        ..Config::default()
    };
    assert!(matches!(
        select_mode(&d, &config),
        Err(Error::NoMatchingDisplayMode(u, c)) if u == "A" && c.frequency == Some(75)
    ));
}

/// Applying a resolved group drives the whole transaction: rotation,
/// brightness, mode and origin are applied to a non-mirroring display.
#[test]
fn test_pipeline_applies_configuration() {
    let mut state = FakeDisplayState::new(vec![display(
        "A",
        vec![
            mode("A", false, 32, 60, 800, 600),
            mode("A", false, 32, 120, 1024, 768),
        ],
    )]);
    let config = Config {
        uuid: "A".to_owned(),
        origin: Some(Point { x: 10, y: 20 }),
        extents: Some(Point { x: 1024, y: 768 }),
        rotation: Some(Rotation::Ninety),
        brightness: Some(750),
        ..Config::default()
    };
    let groups = vec![ValidConfigGroup {
        uuids: vec!["A".to_owned()],
        configs: vec![config],
    }];
    pipeline_apply(&groups, &mut state).expect("Pipeline should succeed");
    let d = &state.displays[0];
    assert_eq!(d.origin, Point { x: 10, y: 20 });
    assert_eq!(d.rotation, Rotation::Ninety);
    assert_eq!(d.brightness, Some(750));
    assert_eq!(d.mode.extents, Point { x: 1024, y: 768 });
    assert_eq!(d.mirror_of, None);
}

/// Applying a mirroring record sets the mirror target and leaves the other
/// options untouched; an explicit disable is honored.
#[test]
fn test_pipeline_applies_mirroring() {
    let mut state = FakeDisplayState::new(vec![
        display("A", vec![mode("A", false, 32, 60, 800, 600)]),
        display("B", vec![mode("B", false, 32, 60, 800, 600)]),
    ]);
    let groups = vec![ValidConfigGroup {
        uuids: vec!["A".to_owned(), "B".to_owned()],
        configs: vec![
            Config {
                uuid: "A".to_owned(),
                mirror_of: Some("B".to_owned()),
                ..Config::default()
            },
            Config {
                uuid: "B".to_owned(),
                ..Config::default()
            },
        ],
    }];
    pipeline_apply(&groups, &mut state).expect("Pipeline should succeed");
    assert_eq!(state.displays[0].mirror_of, Some("B".to_owned()));
    assert_eq!(state.displays[0].rotation, Rotation::Zero);
    assert_eq!(state.displays[1].mirror_of, None);
}

/// An empty list of groups leaves the displays untouched in pipeline mode
/// but is an error in daemon mode.
#[test]
fn test_empty_groups_behavior() {
    let mut state = FakeDisplayState::new(vec![display("A", vec![mode("A", false, 32, 60, 800, 600)])]);
    let groups: Vec<ValidConfigGroup> = vec![];
    assert!(pipeline_apply(&groups, &mut state).is_ok());
    assert!(matches!(
        daemon_reconfigure(&groups, &mut state),
        Err(Error::NoConfigGroups)
    ));
}

/// A failed mode selection aborts the apply attempt and leaves the
/// displays unchanged.
#[test]
fn test_pipeline_failure_leaves_state_unchanged() {
    let mut state = FakeDisplayState::new(vec![display("A", vec![mode("A", false, 32, 60, 800, 600)])]);
    let groups = vec![ValidConfigGroup {
        uuids: vec!["A".to_owned()],
        configs: vec![Config {
            uuid: "A".to_owned(),
            frequency: Some(75),
            ..Config::default()
        }],
    }];
    match pipeline_apply(&groups, &mut state) {
        Err(Error::NoMatchingDisplayMode(u, _)) => assert_eq!(u, "A"),
        other => panic!("Expected a no-matching-mode error, got {:?}", other),
    }
    assert_eq!(state.displays[0].rotation, Rotation::Zero);
    assert_eq!(state.displays[0].origin, Point { x: 0, y: 0 });
}

/// Converting a display state back into configuration groups reports one
/// record per display, in full for ordinary displays and by mirror target
/// for mirroring displays.
#[test]
fn test_state_to_config_reports_displays() {
    let mut mirroring = display("B", vec![mode("B", false, 32, 60, 800, 600)]);
    mirroring.mirror_of = Some("A".to_owned());
    let state = FakeDisplayState::new(vec![
        display("A", vec![mode("A", true, 32, 60, 1024, 768)]),
        mirroring,
    ]);
    let cgs = state_to_config(&state);
    assert_eq!(cgs.groups.len(), 1);
    let configs = &cgs.groups[0].configs;
    assert_eq!(configs.len(), 2);
    assert_eq!(configs[0].uuid, "A");
    assert_eq!(configs[0].enabled, Some(true));
    assert_eq!(configs[0].extents, Some(Point { x: 1024, y: 768 }));
    assert_eq!(configs[0].scaled, Some(true));
    assert_eq!(configs[0].rotation, Some(Rotation::Zero));
    assert_eq!(configs[0].brightness, Some(500));
    assert_eq!(configs[0].mirror_of, None);
    assert_eq!(configs[1].uuid, "B");
    assert_eq!(configs[1].mirror_of, Some("A".to_owned()));
    assert_eq!(configs[1].enabled, None);
    assert_eq!(configs[1].rotation, None);
}

/// A fresh snapshot filters out displays that have been disabled.
#[test]
fn test_snapshot_filters_disabled_displays() {
    let mut off = display("B", vec![mode("B", false, 32, 60, 800, 600)]);
    off.enabled = false;
    let state = FakeDisplayState::new(vec![
        display("A", vec![mode("A", false, 32, 60, 800, 600)]),
        off,
    ]);
    let snapshot = state.current();
    assert_eq!(snapshot.displays.len(), 1);
    assert_eq!(snapshot.displays[0].uuid, "A");
}
