//! An in-memory display backend.  It keeps display state as plain values
//! and applies configuration changes through the transaction protocol, which
//! allows exercising the whole pipeline independent of the displays actually
//! attached to the computer.

use vstd::pervasive::VecAdditionalExecFns;
use vstd::prelude::*;

use crate::config::BRIGHTNESS_SCALE;
use crate::displays::{DisplayModePattern, Error, Point, Rotation};
use crate::valid_config::{in_strings, str_views};

verus! {

/// The abstract value of a display mode.
pub ghost struct ModeView {
    /// UUID of the display this mode belongs to.
    pub uuid: Seq<char>,
    /// Whether the mode is scaled (2x rather than 1x).
    pub scaled: bool,
    /// The color depth of the mode in bits.
    pub color_depth: usize,
    /// The refresh frequency of the mode in Hertz.
    pub frequency: usize,
    /// The mode resolution in pixels, in landscape orientation.
    pub extents: Point,
}

/// One possible configuration state of a display.
#[derive(Debug)]
pub struct FakeDisplayMode {
    /// UUID of the display this mode belongs to.
    pub uuid: String,
    /// Whether the mode is scaled (2x rather than 1x).
    pub scaled: bool,
    /// The color depth of the mode in bits.
    pub color_depth: usize,
    /// The refresh frequency of the mode in Hertz.
    pub frequency: usize,
    /// The mode resolution in pixels, in landscape orientation.
    pub extents: Point,
}

impl View for FakeDisplayMode {
    type V = ModeView;

    open spec fn view(&self) -> ModeView {
        ModeView {
            uuid: self.uuid@,
            scaled: self.scaled,
            color_depth: self.color_depth,
            frequency: self.frequency,
            extents: self.extents,
        }
    }
}

impl Clone for FakeDisplayMode {
    /// Cloning preserves the abstract value of the mode.
    fn clone(&self) -> (res: Self)
        ensures
            res@ == self@,
    {
        FakeDisplayMode {
            uuid: self.uuid.clone(),
            scaled: self.scaled,
            color_depth: self.color_depth,
            frequency: self.frequency,
            extents: self.extents,
        }
    }
}

/// Whether a display mode matches a pattern: every constrained field must
/// agree, and an unconstrained field matches anything.
pub open spec fn mode_matches(m: ModeView, p: DisplayModePattern) -> bool {
    &&& match p.scaled {
        Some(s) => s == m.scaled,
        None => true,
    }
    &&& match p.color_depth {
        Some(d) => d == m.color_depth,
        None => true,
    }
    &&& match p.frequency {
        Some(f) => f == m.frequency,
        None => true,
    }
    &&& match p.extents {
        Some(e) => e == m.extents,
        None => true,
    }
}

/// The abstract values of a sequence of display modes.
pub open spec fn mode_views(s: Seq<FakeDisplayMode>) -> Seq<ModeView> {
    s.map_values(|m: FakeDisplayMode| m@)
}

/// The modes among `modes` that match the pattern, in order.
pub open spec fn matching_mode_views(modes: Seq<ModeView>, p: DisplayModePattern) -> Seq<ModeView> {
    modes.filter(|m: ModeView| mode_matches(m, p))
}

impl FakeDisplayMode {
    /// Check whether this display mode matches the given pattern.
    pub fn match_pattern(&self, pattern: &DisplayModePattern) -> (r: bool)
        ensures
            r == mode_matches(self@, *pattern),
    {
        let scaled_ok = match pattern.scaled {
            Some(s) => s == self.scaled,
            None => true,
        };
        let depth_ok = match pattern.color_depth {
            Some(d) => d == self.color_depth,
            None => true,
        };
        let freq_ok = match pattern.frequency {
            Some(f) => f == self.frequency,
            None => true,
        };
        let extents_ok = match pattern.extents {
            Some(e) => e.x == self.extents.x && e.y == self.extents.y,
            None => true,
        };
        scaled_ok && depth_ok && freq_ok && extents_ok
    }
}

/// The abstract value of a display.
pub ghost struct DisplayView {
    /// The stable identifier of the display.
    pub uuid: Seq<char>,
    /// The display this display mirrors, if any.
    pub mirror_of: Option<Seq<char>>,
    /// Whether the display is enabled.
    pub enabled: bool,
    /// The location of the upper left corner of the display.
    pub origin: Point,
    /// The rotation of the display.
    pub rotation: Rotation,
    /// The currently configured mode.
    pub mode: ModeView,
    /// All modes this display supports.
    pub modes: Seq<ModeView>,
    /// The display brightness in thousandths, where supported.
    pub brightness: Option<i32>,
}

/// The current state of one attached display.
#[derive(Debug)]
pub struct FakeDisplay {
    /// The stable identifier of the display.
    pub uuid: String,
    /// The display this display mirrors, if any.
    pub mirror_of: Option<String>,
    /// Whether the display is enabled.
    pub enabled: bool,
    /// The location of the upper left corner of the display.
    pub origin: Point,
    /// The rotation of the display.
    pub rotation: Rotation,
    /// The currently configured mode.
    pub mode: FakeDisplayMode,
    /// All modes this display supports.
    pub modes: Vec<FakeDisplayMode>,
    /// The display brightness in thousandths, where supported.
    pub brightness: Option<i32>,
}

impl View for FakeDisplay {
    type V = DisplayView;

    open spec fn view(&self) -> DisplayView {
        DisplayView {
            uuid: self.uuid@,
            mirror_of: match self.mirror_of {
                Some(s) => Some(s@),
                None => None,
            },
            enabled: self.enabled,
            origin: self.origin,
            rotation: self.rotation,
            mode: self.mode@,
            modes: mode_views(self.modes@),
            brightness: self.brightness,
        }
    }
}

impl Clone for FakeDisplay {
    /// Cloning preserves the abstract value of the display.
    fn clone(&self) -> (res: Self)
        ensures
            res@ == self@,
    {
        let modes = self.modes.clone();
        proof {
            assert(mode_views(modes@) =~= mode_views(self.modes@));
        }
        FakeDisplay {
            uuid: self.uuid.clone(),
            mirror_of: self.mirror_of.clone(),
            enabled: self.enabled,
            origin: self.origin,
            rotation: self.rotation,
            mode: self.mode.clone(),
            modes,
            brightness: self.brightness,
        }
    }
}

impl FakeDisplay {
    /// Return those display modes of this display that match the provided
    /// pattern, in order.
    pub fn matching_modes(&self, pattern: &DisplayModePattern) -> (r: Vec<FakeDisplayMode>)
        ensures
            mode_views(r@) == matching_mode_views(self@.modes, *pattern),
    {
        let mut r: Vec<FakeDisplayMode> = Vec::new();
        let mut i: usize = 0;
        proof {
            reveal(Seq::filter);
            assert(mode_views(self.modes@).take(0) =~= Seq::<ModeView>::empty());
            assert(mode_views(r@) =~= matching_mode_views(mode_views(self.modes@).take(0), *pattern));
        }
        while i < self.modes.len()
            invariant
                i <= self.modes@.len(),
                mode_views(r@) == matching_mode_views(
                    mode_views(self.modes@).take(i as int),
                    *pattern,
                ),
            decreases self.modes@.len() - i,
        {
            let ghost r0 = mode_views(r@);
            if self.modes[i].match_pattern(pattern) {
                r.push(self.modes[i].clone());
                proof {
                    assert(mode_views(r@) =~= r0.push(self.modes@[i as int]@));
                }
            }
            proof {
                reveal(Seq::filter);
                let post = mode_views(self.modes@).take(i + 1);
                assert(post.drop_last() =~= mode_views(self.modes@).take(i as int));
                assert(post.last() == self.modes@[i as int]@);
            }
            i = i + 1;
        }
        proof {
            assert(mode_views(self.modes@).take(self.modes@.len() as int) =~= mode_views(
                self.modes@,
            ));
            assert(self@.modes == mode_views(self.modes@));
        }
        r
    }
}

/// One queued change to one display.
#[derive(Debug)]
pub enum FakeDisplayEdit {
    /// Switch the display to the given mode.
    SetMode(FakeDisplayMode),
    /// Rotate the display.
    SetRotation(Rotation),
    /// Move the upper left corner of the display.
    SetOrigin(Point),
    /// Enable or disable the display.
    SetEnabled(bool),
    /// Make the display mirror another display, or stop mirroring.
    SetMirroring(Option<String>),
    /// Change the display brightness, in thousandths.
    SetBrightness(i32),
}

/// The abstract value of a queued change.
pub ghost enum EditView {
    /// Switch the display to the given mode.
    SetMode(ModeView),
    /// Rotate the display.
    SetRotation(Rotation),
    /// Move the upper left corner of the display.
    SetOrigin(Point),
    /// Enable or disable the display.
    SetEnabled(bool),
    /// Make the display mirror another display, or stop mirroring.
    SetMirroring(Option<Seq<char>>),
    /// Change the display brightness, in thousandths.
    SetBrightness(i32),
}

impl View for FakeDisplayEdit {
    type V = EditView;

    open spec fn view(&self) -> EditView {
        match self {
            FakeDisplayEdit::SetMode(m) => EditView::SetMode(m@),
            FakeDisplayEdit::SetRotation(r) => EditView::SetRotation(*r),
            FakeDisplayEdit::SetOrigin(p) => EditView::SetOrigin(*p),
            FakeDisplayEdit::SetEnabled(e) => EditView::SetEnabled(*e),
            FakeDisplayEdit::SetMirroring(m) => EditView::SetMirroring(
                match m {
                    Some(s) => Some(s@),
                    None => None,
                },
            ),
            FakeDisplayEdit::SetBrightness(b) => EditView::SetBrightness(*b),
        }
    }
}

/// The display value after applying one edit.
pub open spec fn apply_edit_view(d: DisplayView, e: EditView) -> DisplayView {
    match e {
        EditView::SetMode(m) => DisplayView { mode: m, ..d },
        EditView::SetRotation(r) => DisplayView { rotation: r, ..d },
        EditView::SetOrigin(p) => DisplayView { origin: p, ..d },
        EditView::SetEnabled(en) => DisplayView { enabled: en, ..d },
        EditView::SetMirroring(m) => DisplayView { mirror_of: m, ..d },
        EditView::SetBrightness(b) => DisplayView { brightness: Some(b), ..d },
    }
}

/// Apply one edit, addressed by UUID, to every display it addresses.
pub open spec fn apply_edit_to_displays(
    ds: Seq<DisplayView>,
    e: (Seq<char>, EditView),
) -> Seq<DisplayView> {
    ds.map_values(
        |d: DisplayView|
            if d.uuid == e.0 {
                apply_edit_view(d, e.1)
            } else {
                d
            },
    )
}

/// Apply a sequence of edits in order.
pub open spec fn apply_edits(
    ds: Seq<DisplayView>,
    es: Seq<(Seq<char>, EditView)>,
) -> Seq<DisplayView>
    decreases es.len(),
{
    if es.len() == 0 {
        ds
    } else {
        apply_edit_to_displays(apply_edits(ds, es.drop_last()), es.last())
    }
}

/// The abstract value of a queue of edits.
pub open spec fn edit_views(es: Seq<(String, FakeDisplayEdit)>) -> Seq<(Seq<char>, EditView)> {
    es.map_values(|e: (String, FakeDisplayEdit)| (e.0@, e.1@))
}

/// Whether a rotation edit for `u` is already queued.
pub open spec fn has_rotation_edit(es: Seq<(String, FakeDisplayEdit)>, u: Seq<char>) -> bool {
    exists|j: int| 0 <= j < es.len() && (#[trigger] es[j]).0@ == u && es[j].1 is SetRotation
}

/// Whether some display in `ds` has UUID `u`.
pub open spec fn state_has_uuid(ds: Seq<DisplayView>, u: Seq<char>) -> bool {
    exists|k: int| 0 <= k < ds.len() && (#[trigger] ds[k]).uuid == u
}

/// The abstract value of the attached displays.
pub open spec fn display_views(ds: Seq<FakeDisplay>) -> Seq<DisplayView> {
    ds.map_values(|d: FakeDisplay| d@)
}

/// The current state of the attached displays.
#[derive(Debug)]
pub struct FakeDisplayState {
    /// The attached displays.
    pub displays: Vec<FakeDisplay>,
}

impl View for FakeDisplayState {
    type V = Seq<DisplayView>;

    open spec fn view(&self) -> Seq<DisplayView> {
        display_views(self.displays@)
    }
}

impl FakeDisplayState {
    /// The state is well-formed when no two displays share a UUID.
    pub open spec fn wf(self) -> bool {
        forall|k1: int, k2: int|
            0 <= k1 < k2 < self@.len() ==> (#[trigger] self@[k1]).uuid != (#[trigger] self@[k2]).uuid
    }

    /// Package a list of displays as a display state.
    pub fn new(displays: Vec<FakeDisplay>) -> (r: Self)
        ensures
            r@ == display_views(displays@),
    {
        FakeDisplayState { displays }
    }

    /// Take a fresh snapshot of this state.  A display that has been
    /// disabled no longer registers as attached, so the snapshot contains
    /// only the enabled displays.
    pub fn current(&self) -> (r: Self)
        ensures
            r@ == self@.filter(|d: DisplayView| d.enabled),
    {
        let mut kept: Vec<FakeDisplay> = Vec::new();
        let mut i: usize = 0;
        proof {
            reveal(Seq::filter);
            assert(self@.take(0) =~= Seq::<DisplayView>::empty());
            assert(display_views(kept@) =~= self@.take(0).filter(|d: DisplayView| d.enabled));
        }
        while i < self.displays.len()
            invariant
                i <= self.displays@.len(),
                display_views(kept@) == display_views(self.displays@).take(i as int).filter(
                    |d: DisplayView| d.enabled,
                ),
            decreases self.displays@.len() - i,
        {
            let ghost k0 = display_views(kept@);
            if self.displays[i].enabled {
                kept.push(self.displays[i].clone());
                proof {
                    assert(display_views(kept@) =~= k0.push(self.displays@[i as int]@));
                }
            }
            proof {
                reveal(Seq::filter);
                let post = display_views(self.displays@).take(i + 1);
                assert(post.drop_last() =~= display_views(self.displays@).take(i as int));
                assert(post.last() == self.displays@[i as int]@);
            }
            i = i + 1;
        }
        proof {
            assert(display_views(self.displays@).take(self.displays@.len() as int) =~= self@);
        }
        FakeDisplayState { displays: kept }
    }

    /// Open a configuration transaction scoped to the displays of this
    /// state.
    pub fn configure(&self) -> (r: Result<FakeDisplayConfigTransaction, Error>)
        ensures
            r matches Ok(t) && !t.dropped && t.edits@.len() == 0 && str_views(t.uuids@) == self@
                .map_values(|d: DisplayView| d.uuid),
    {
        let mut uuids: Vec<String> = Vec::new();
        let mut i: usize = 0;
        while i < self.displays.len()
            invariant
                i <= self.displays@.len(),
                uuids@.len() == i,
                forall|k: int| 0 <= k < i ==> (#[trigger] uuids@[k])@ == self.displays@[k]@.uuid,
            decreases self.displays@.len() - i,
        {
            uuids.push(self.displays[i].uuid.clone());
            i = i + 1;
        }
        proof {
            assert(str_views(uuids@) =~= self@.map_values(|d: DisplayView| d.uuid));
        }
        Ok(FakeDisplayConfigTransaction { dropped: false, uuids, edits: Vec::new() })
    }
}

/// A configuration transaction for the in-memory backend: it accumulates
/// edits while open and applies them all at commit.
#[derive(Debug)]
pub struct FakeDisplayConfigTransaction {
    /// Whether the transaction has been consumed or invalidated.
    pub dropped: bool,
    /// The UUIDs of the displays this transaction may configure.
    pub uuids: Vec<String>,
    /// The queued edits, in the order they were requested.
    pub edits: Vec<(String, FakeDisplayEdit)>,
}

impl FakeDisplayConfigTransaction {
    /// Whether a display with UUID `u` is known to this transaction.
    pub open spec fn knows(self, u: Seq<char>) -> bool {
        in_strings(self.uuids@, u)
    }

    /// Helper to look up a display and queue the requested edit.
    fn record_edit(&mut self, uuid: &str, edit: FakeDisplayEdit) -> (r: Result<(), Error>)
        ensures
            old(self).dropped ==> (r matches Err(Error::InvalidTransactionState) && *final(self)
                == *old(self)),
            !old(self).dropped && !old(self).knows(uuid@) ==> (r matches Err(
                Error::UnknownUUID(u),
            ) && u@ == uuid@ && *final(self) == *old(self)),
            !old(self).dropped && old(self).knows(uuid@) ==> r is Ok && final(self).dropped
                == old(self).dropped && final(self).uuids@ == old(self).uuids@ && edit_views(
                final(self).edits@,
            ) == edit_views(old(self).edits@).push((uuid@, edit@)),
    {
        if self.dropped {
            return Err(Error::InvalidTransactionState);
        }
        if !self.knows_uuid(uuid) {
            return Err(Error::UnknownUUID(uuid.to_owned()));
        }
        let ghost e0 = edit_views(self.edits@);
        self.edits.push((uuid.to_owned(), edit));
        proof {
            assert(edit_views(self.edits@) =~= e0.push((uuid@, edit@)));
        }
        Ok(())
    }

    /// Queue making the display mirror another display, or stop mirroring.
    pub fn set_mirroring(&mut self, uuid: &str, mirror_uuid: Option<&str>) -> (r: Result<
        (),
        Error,
    >)
        ensures
            old(self).dropped ==> (r matches Err(Error::InvalidTransactionState) && *final(self)
                == *old(self)),
            !old(self).dropped && !old(self).knows(uuid@) ==> (r matches Err(
                Error::UnknownUUID(u),
            ) && u@ == uuid@ && *final(self) == *old(self)),
            !old(self).dropped && old(self).knows(uuid@) ==> r is Ok && final(self).dropped
                == old(self).dropped && final(self).uuids@ == old(self).uuids@ && edit_views(
                final(self).edits@,
            ) == edit_views(old(self).edits@).push(
                (
                    uuid@,
                    EditView::SetMirroring(
                        match mirror_uuid {
                            Some(s) => Some(s@),
                            None => None,
                        },
                    ),
                ),
            ),
    {
        let target: Option<String> = match mirror_uuid {
            Some(s) => Some(s.to_owned()),
            None => None,
        };
        self.record_edit(uuid, FakeDisplayEdit::SetMirroring(target))
    }

    /// Queue switching the display to the given mode.  The mode must belong
    /// to the display it is used with.
    pub fn set_mode(&mut self, uuid: &str, mode: &FakeDisplayMode) -> (r: Result<(), Error>)
        requires
            mode@.uuid == uuid@,
        ensures
            old(self).dropped ==> (r matches Err(Error::InvalidTransactionState) && *final(self)
                == *old(self)),
            !old(self).dropped && !old(self).knows(uuid@) ==> (r matches Err(
                Error::UnknownUUID(u),
            ) && u@ == uuid@ && *final(self) == *old(self)),
            !old(self).dropped && old(self).knows(uuid@) ==> r is Ok && final(self).dropped
                == old(self).dropped && final(self).uuids@ == old(self).uuids@ && edit_views(
                final(self).edits@,
            ) == edit_views(old(self).edits@).push((uuid@, EditView::SetMode(mode@))),
    {
        self.record_edit(uuid, FakeDisplayEdit::SetMode(mode.clone()))
    }

    /// Queue rotating the display.  At most one rotation may be queued per
    /// display within one transaction.
    pub fn set_rotation(&mut self, uuid: &str, rotation: Rotation) -> (r: Result<(), Error>)
        ensures
            old(self).dropped ==> (r matches Err(Error::InvalidTransactionState) && *final(self)
                == *old(self)),
            !old(self).dropped && !old(self).knows(uuid@) ==> (r matches Err(
                Error::UnknownUUID(u),
            ) && u@ == uuid@ && *final(self) == *old(self)),
            !old(self).dropped && old(self).knows(uuid@) && has_rotation_edit(
                old(self).edits@,
                uuid@,
            ) ==> (r matches Err(Error::DuplicateConfiguration(u)) && u@ == uuid@ && *final(self)
                == *old(self)),
            !old(self).dropped && old(self).knows(uuid@) && !has_rotation_edit(
                old(self).edits@,
                uuid@,
            ) ==> r is Ok && final(self).dropped == old(self).dropped && final(self).uuids@ == old(self).uuids@ && edit_views(final(self).edits@) == edit_views(old(self).edits@).push(
                (uuid@, EditView::SetRotation(rotation)),
            ),
    {
        if self.dropped {
            return Err(Error::InvalidTransactionState);
        }
        if !self.knows_uuid(uuid) {
            return Err(Error::UnknownUUID(uuid.to_owned()));
        }
        let uuid_owned = uuid.to_owned();
        let mut j: usize = 0;
        while j < self.edits.len()
            invariant
                j <= self.edits@.len(),
                uuid_owned@ == uuid@,
                !self.dropped,
                self.knows(uuid@),
                forall|k: int|
                    0 <= k < j ==> !((#[trigger] self.edits@[k]).0@ == uuid@ && self.edits@[k].1
                        is SetRotation),
            decreases self.edits@.len() - j,
        {
            let duplicate = match &self.edits[j].1 {
                FakeDisplayEdit::SetRotation(_) => self.edits[j].0 == uuid_owned,
                _ => false,
            };
            if duplicate {
                return Err(Error::DuplicateConfiguration(uuid.to_owned()));
            }
            j = j + 1;
        }
        self.record_edit(uuid, FakeDisplayEdit::SetRotation(rotation))
    }

    /// Whether this transaction knows the given UUID.
    fn knows_uuid(&self, uuid: &str) -> (r: bool)
        ensures
            r == self.knows(uuid@),
    {
        let mut j: usize = 0;
        let uuid_owned = uuid.to_owned();
        while j < self.uuids.len()
            invariant
                j <= self.uuids@.len(),
                uuid_owned@ == uuid@,
                forall|k: int| 0 <= k < j ==> (#[trigger] self.uuids@[k])@ != uuid@,
            decreases self.uuids@.len() - j,
        {
            if self.uuids[j] == uuid_owned {
                return true;
            }
            j = j + 1;
        }
        false
    }

    /// Queue moving the upper left corner of the display.
    pub fn set_origin(&mut self, uuid: &str, point: &Point) -> (r: Result<(), Error>)
        ensures
            old(self).dropped ==> (r matches Err(Error::InvalidTransactionState) && *final(self)
                == *old(self)),
            !old(self).dropped && !old(self).knows(uuid@) ==> (r matches Err(
                Error::UnknownUUID(u),
            ) && u@ == uuid@ && *final(self) == *old(self)),
            !old(self).dropped && old(self).knows(uuid@) ==> r is Ok && final(self).dropped
                == old(self).dropped && final(self).uuids@ == old(self).uuids@ && edit_views(
                final(self).edits@,
            ) == edit_views(old(self).edits@).push((uuid@, EditView::SetOrigin(*point))),
    {
        self.record_edit(uuid, FakeDisplayEdit::SetOrigin(*point))
    }

    /// Queue enabling or disabling the display.
    pub fn set_enabled(&mut self, uuid: &str, enabled: bool) -> (r: Result<(), Error>)
        ensures
            old(self).dropped ==> (r matches Err(Error::InvalidTransactionState) && *final(self)
                == *old(self)),
            !old(self).dropped && !old(self).knows(uuid@) ==> (r matches Err(
                Error::UnknownUUID(u),
            ) && u@ == uuid@ && *final(self) == *old(self)),
            !old(self).dropped && old(self).knows(uuid@) ==> r is Ok && final(self).dropped
                == old(self).dropped && final(self).uuids@ == old(self).uuids@ && edit_views(
                final(self).edits@,
            ) == edit_views(old(self).edits@).push((uuid@, EditView::SetEnabled(enabled))),
    {
        self.record_edit(uuid, FakeDisplayEdit::SetEnabled(enabled))
    }

    /// Queue changing the display brightness, given in thousandths.
    pub fn set_brightness(&mut self, uuid: &str, brightness: i32) -> (r: Result<(), Error>)
        ensures
            !(0 <= brightness <= BRIGHTNESS_SCALE) ==> (r matches Err(
                Error::InvalidBrightness(b),
            ) && b == brightness && *final(self) == *old(self)),
            (0 <= brightness <= BRIGHTNESS_SCALE && old(self).dropped) ==> (
            r matches Err(Error::InvalidTransactionState) && *final(self) == *old(self)),
            (0 <= brightness <= BRIGHTNESS_SCALE && !old(self).dropped && !old(self).knows(uuid@)) ==> (r matches Err(Error::UnknownUUID(u)) && u@ == uuid@ && *final(self)
                == *old(self)),
            (0 <= brightness <= BRIGHTNESS_SCALE && !old(self).dropped && old(self).knows(uuid@)) ==> r is Ok && final(self).dropped == old(self).dropped && final(self).uuids@ == old(self).uuids@ && edit_views(final(self).edits@) == edit_views(
                old(self).edits@,
            ).push((uuid@, EditView::SetBrightness(brightness))),
    {
        if brightness < 0 || brightness > BRIGHTNESS_SCALE {
            return Err(Error::InvalidBrightness(brightness));
        }
        self.record_edit(uuid, FakeDisplayEdit::SetBrightness(brightness))
    }

    /// Discard all queued edits and close the transaction.
    pub fn cancel(self) -> (r: Result<(), Error>)
        ensures
            r is Ok <==> !self.dropped,
            !(r is Ok) ==> r matches Err(Error::InvalidTransactionState),
    {
        if self.dropped {
            return Err(Error::InvalidTransactionState);
        }
        Ok(())
    }

    /// Attempt to apply the queued edits to the given display state and
    /// close out the transaction.  Either every edit is applied, in order,
    /// or the state is left unchanged.
    pub fn commit(self, state: &mut FakeDisplayState) -> (r: Result<(), Error>)
        ensures
            self.dropped ==> (r matches Err(Error::InvalidTransactionState) && *final(state)
                == *old(state)),
            !self.dropped && (forall|j: int|
                0 <= j < self.edits@.len() ==> state_has_uuid(
                    old(state)@,
                    (#[trigger] self.edits@[j]).0@,
                )) ==> r is Ok && final(state)@ == apply_edits(old(state)@, edit_views(self.edits@)),
            forall|j: int|
                (!self.dropped && 0 <= j < self.edits@.len() && !state_has_uuid(
                    old(state)@,
                    (#[trigger] self.edits@[j]).0@,
                ) && (forall|k: int|
                    0 <= k < j ==> state_has_uuid(old(state)@, (#[trigger] self.edits@[k]).0@)))
                    ==> (r matches Err(Error::UnknownUUID(u)) && u@ == self.edits@[j].0@ && *final(state) == *old(state)),
    {
        if self.dropped {
            return Err(Error::InvalidTransactionState);
        }
        // First check that every edit addresses a known display, so that
        // the state is never partially updated.
        let mut j: usize = 0;
        while j < self.edits.len()
            invariant
                j <= self.edits@.len(),
                !self.dropped,
                forall|k: int|
                    0 <= k < j ==> state_has_uuid(state@, (#[trigger] self.edits@[k]).0@),
            decreases self.edits@.len() - j,
        {
            if !state_knows_uuid(state, self.edits[j].0.as_str()) {
                return Err(Error::UnknownUUID(self.edits[j].0.clone()));
            }
            j = j + 1;
        }
        // Apply the edits in order.
        let ghost ds0 = state@;
        let mut j: usize = 0;
        proof {
            assert(edit_views(self.edits@).take(0) =~= Seq::<(Seq<char>, EditView)>::empty());
        }
        while j < self.edits.len()
            invariant
                j <= self.edits@.len(),
                !self.dropped,
                state@ == apply_edits(ds0, edit_views(self.edits@).take(j as int)),
                state.displays@.len() == ds0.len(),
            decreases self.edits@.len() - j,
        {
            let ghost before = state@;
            let ghost e = edit_views(self.edits@)[j as int];
            let mut k: usize = 0;
            while k < state.displays.len()
                invariant
                    k <= state.displays@.len(),
                    state.displays@.len() == before.len(),
                    j < self.edits@.len(),
                    e == edit_views(self.edits@)[j as int],
                    forall|k2: int|
                        0 <= k2 < k ==> state@[k2] == (if before[k2].uuid == e.0 {
                            apply_edit_view(before[k2], e.1)
                        } else {
                            before[k2]
                        }),
                    forall|k2: int| k <= k2 < before.len() ==> state@[k2] == before[k2],
                decreases state.displays@.len() - k,
            {
                let ghost disp_before = state@;
                if state.displays[k].uuid == self.edits[j].0 {
                    let mut d = state.displays[k].clone();
                    apply_edit_to_display(&mut d, &self.edits[j].1);
                    let ghost dv = d@;
                    state.displays.set(k, d);
                    proof {
                        assert(disp_before[k as int].uuid == e.0);
                        assert(dv == apply_edit_view(before[k as int], e.1));
                        assert forall|k2: int| 0 <= k2 < state@.len() implies state@[k2] == (
                        if k2 == k as int {
                            dv
                        } else {
                            disp_before[k2]
                        }) by {
                            assert(state@[k2] == state.displays@[k2]@);
                        }
                    }
                } else {
                    proof {
                        assert(state@[k as int] == before[k as int]);
                        assert(!(before[k as int].uuid == e.0));
                    }
                }
                k = k + 1;
            }
            proof {
                assert(state@ =~= apply_edit_to_displays(before, e));
                let taken = edit_views(self.edits@).take(j + 1);
                assert(taken.drop_last() =~= edit_views(self.edits@).take(j as int));
                assert(taken.last() == e);
                assert(state@ == apply_edits(ds0, taken));
            }
            j = j + 1;
        }
        proof {
            assert(edit_views(self.edits@).take(self.edits@.len() as int) =~= edit_views(
                self.edits@,
            ));
        }
        Ok(())
    }
}

/// Whether the state contains a display with the given UUID.
fn state_knows_uuid(state: &FakeDisplayState, uuid: &str) -> (r: bool)
    ensures
        r == state_has_uuid(state@, uuid@),
{
    let uuid_owned = uuid.to_owned();
    let mut k: usize = 0;
    while k < state.displays.len()
        invariant
            k <= state.displays@.len(),
            uuid_owned@ == uuid@,
            forall|k2: int| 0 <= k2 < k ==> (#[trigger] state@[k2]).uuid != uuid@,
        decreases state.displays@.len() - k,
    {
        if state.displays[k].uuid == uuid_owned {
            proof {
                assert(state@[k as int].uuid == uuid@);
            }
            return true;
        }
        k = k + 1;
    }
    false
}

/// Apply one edit to one display.
fn apply_edit_to_display(d: &mut FakeDisplay, edit: &FakeDisplayEdit)
    ensures
        final(d)@ == apply_edit_view(old(d)@, edit@),
{
    match edit {
        FakeDisplayEdit::SetMode(m) => {
            d.mode = m.clone();
        },
        FakeDisplayEdit::SetRotation(r) => {
            d.rotation = *r;
        },
        FakeDisplayEdit::SetOrigin(p) => {
            d.origin = *p;
        },
        FakeDisplayEdit::SetEnabled(e) => {
            d.enabled = *e;
        },
        FakeDisplayEdit::SetMirroring(m) => {
            d.mirror_of = m.clone();
        },
        FakeDisplayEdit::SetBrightness(b) => {
            d.brightness = Some(*b);
        },
    }
}

} // verus!
