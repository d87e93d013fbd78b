//! Tests for the transaction protocol, the coordinator, format selection
//! and the small display helpers.

use knoll::core_graphics::CGError;
use knoll::displays::{DisplayModePattern, Error, Point, Rotation};
use knoll::fake_displays::{FakeDisplay, FakeDisplayMode, FakeDisplayState};
use knoll::knoll::ReconfigureCoordinator;
use knoll::real_displays::{cg_error_to_result, undo_display_rotation};
use knoll::serde::Format;

/// A display mode for the given display.
fn mode(uuid: &str, scaled: bool, depth: usize, freq: usize, w: i64, h: i64) -> FakeDisplayMode {
    FakeDisplayMode {
        uuid: uuid.to_owned(),
        scaled,
        color_depth: depth,
        frequency: freq,
        extents: Point { x: w, y: h },
    }
}

/// A display with the given UUID and modes; the first mode is current.
fn display(uuid: &str, modes: Vec<FakeDisplayMode>) -> FakeDisplay {
    FakeDisplay {
        uuid: uuid.to_owned(),
        mirror_of: None,
        enabled: true,
        origin: Point { x: 0, y: 0 },
        rotation: Rotation::Zero,
        mode: modes[0].clone(),
        modes,
        brightness: None,
    }
}

#[test]
fn test_format_from() {
    assert_eq!(Format::from("ron").unwrap(), Format::Ron);
    assert_eq!(Format::from("json").unwrap(), Format::Json);
}

#[test]
fn test_format_from_unsupported() {
    let err = Format::from("xml").unwrap_err();
    assert!(matches!(&err, knoll::serde::Error::UnsupportedFormat(fs) if fs == "xml"));
    assert_eq!(err.message(), "Unsupported format: xml");
}

/// Setting the rotation for the same display twice within one transaction
/// is rejected as a duplicate configuration.
#[test]
fn test_duplicate_rotation_rejected() {
    let state = FakeDisplayState::new(vec![display("X", vec![mode("X", false, 32, 60, 800, 600)])]);
    let mut txn = state.configure().expect("Opening a transaction should succeed");
    txn.set_rotation("X", Rotation::Ninety)
        .expect("The first rotation should be accepted");
    assert!(
        matches!(
            txn.set_rotation("X", Rotation::OneEighty),
            Err(Error::DuplicateConfiguration(u)) if u == "X"
        ),
        "Expected the second rotation to be rejected."
    );
}

/// Edits for a display the transaction does not know are rejected.
#[test]
fn test_unknown_uuid_rejected() {
    let state = FakeDisplayState::new(vec![display("X", vec![mode("X", false, 32, 60, 800, 600)])]);
    let mut txn = state.configure().expect("Opening a transaction should succeed");
    assert!(matches!(
        txn.set_enabled("Y", false),
        Err(Error::UnknownUUID(u)) if u == "Y"
    ));
    assert!(matches!(
        txn.set_rotation("Y", Rotation::Zero),
        Err(Error::UnknownUUID(u)) if u == "Y"
    ));
}

/// Edits on a transaction that is no longer open fail with an invalid
/// transaction state.
#[test]
fn test_invalid_transaction_state() {
    let state = FakeDisplayState::new(vec![display("X", vec![mode("X", false, 32, 60, 800, 600)])]);
    let mut txn = state.configure().expect("Opening a transaction should succeed");
    txn.dropped = true;
    assert!(matches!(
        txn.set_enabled("X", false),
        Err(Error::InvalidTransactionState)
    ));
    let mut state2 = FakeDisplayState::new(vec![]);
    assert!(matches!(
        txn.commit(&mut state2),
        Err(Error::InvalidTransactionState)
    ));
}

/// A brightness outside the allowed range, in thousandths, is rejected.
#[test]
fn test_invalid_brightness_rejected() {
    let state = FakeDisplayState::new(vec![display("X", vec![mode("X", false, 32, 60, 800, 600)])]);
    let mut txn = state.configure().expect("Opening a transaction should succeed");
    assert!(matches!(
        txn.set_brightness("X", 1500),
        Err(Error::InvalidBrightness(1500))
    ));
    assert!(matches!(
        txn.set_brightness("X", -1),
        Err(Error::InvalidBrightness(-1))
    ));
    assert!(txn.set_brightness("X", 1000).is_ok());
}

/// Committing a transaction applies its queued edits in order; cancelling
/// discards them.
#[test]
fn test_commit_applies_edits() {
    let mut state =
        FakeDisplayState::new(vec![display("X", vec![mode("X", false, 32, 60, 800, 600)])]);
    let mut txn = state.configure().expect("Opening a transaction should succeed");
    txn.set_rotation("X", Rotation::TwoSeventy).unwrap();
    txn.set_origin("X", &Point { x: 5, y: 7 }).unwrap();
    txn.commit(&mut state).expect("Commit should succeed");
    assert_eq!(state.displays[0].rotation, Rotation::TwoSeventy);
    assert_eq!(state.displays[0].origin, Point { x: 5, y: 7 });

    let txn = state.configure().expect("Opening a transaction should succeed");
    assert!(txn.cancel().is_ok());
    assert_eq!(state.displays[0].rotation, Rotation::TwoSeventy);
}

/// A mode pattern matches a mode exactly when every constrained field
/// agrees.
#[test]
fn test_match_pattern() {
    let m = mode("X", true, 32, 60, 800, 600);
    let all = DisplayModePattern {
        scaled: None,
        color_depth: None,
        frequency: None,
        extents: None,
    };
    assert!(m.match_pattern(&all));
    let good = DisplayModePattern {
        scaled: Some(true),
        color_depth: Some(32),
        frequency: Some(60),
        extents: Some(Point { x: 800, y: 600 }),
    };
    assert!(m.match_pattern(&good));
    let bad = DisplayModePattern {
        scaled: Some(false),
        color_depth: None,
        frequency: None,
        extents: None,
    };
    assert!(!m.match_pattern(&bad));
}

/// The coordinator coalesces bursts of notifications and drops those that
/// arrive during a running pass.
#[test]
fn test_coordinator_coalesces_notifications() {
    let mut c = ReconfigureCoordinator::new();
    assert_eq!(c.completed, 0);
    assert!(c.notify());
    assert!(c.notify());
    c.begin_pass();
    // A notification during a running pass is dropped.
    assert!(!c.notify());
    c.finish_pass();
    assert_eq!(c.completed, 1);
    // The dropped notification was not queued: nothing is pending.
    assert!(c.notify());
    c.begin_pass();
    c.finish_pass();
    assert_eq!(c.completed, 2);
}

/// Rotations carry their angle; only the cardinal angles exist.
#[test]
fn test_rotation_degrees() {
    assert_eq!(Rotation::Zero.degrees(), 0);
    assert_eq!(Rotation::Ninety.degrees(), 90);
    assert_eq!(Rotation::OneEighty.degrees(), 180);
    assert_eq!(Rotation::TwoSeventy.degrees(), 270);
    assert_eq!(Rotation::from_degrees(270), Some(Rotation::TwoSeventy));
    assert_eq!(Rotation::from_degrees(45), None);
}

/// Portrait rotations swap the extents axes; landscape rotations do not.
#[test]
fn test_undo_display_rotation() {
    let p = Point { x: 800, y: 600 };
    assert_eq!(undo_display_rotation(p, Rotation::Zero), p);
    assert_eq!(undo_display_rotation(p, Rotation::OneEighty), p);
    assert_eq!(
        undo_display_rotation(p, Rotation::Ninety),
        Point { x: 600, y: 800 }
    );
    assert_eq!(
        undo_display_rotation(p, Rotation::TwoSeventy),
        Point { x: 600, y: 800 }
    );
}

/// Graphics-layer error codes lift to display errors, with success mapping
/// to a successful result.
#[test]
fn test_cg_error_to_result() {
    assert!(cg_error_to_result(CGError::success, "ctx").is_ok());
    assert!(matches!(
        cg_error_to_result(CGError::failure, "while testing"),
        Err(Error::Internal(m)) if m == "while testing"
    ));
    assert_eq!(CGError::failure.code(), 1000);
    assert_eq!(CGError::success.code(), 0);
}
