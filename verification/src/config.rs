//! Data structures used for representing the current state of the attached
//! displays as well as requesting changes to that configuration.

use vstd::prelude::*;

use crate::displays::Point;
use crate::displays::Rotation;

verus! {

/// Brightness values are carried as thousandths of full brightness, so the
/// allowed range is `0 ..= BRIGHTNESS_SCALE`.
pub const BRIGHTNESS_SCALE: i32 = 1000;

/// A Config describes how to configure an individual display.
///
/// All fields beyond `uuid` mean "leave unchanged" when they are `None`.
#[derive(Debug, PartialEq)]
pub struct Config {
    /// The stable, opaque identifier of the display this record applies to.
    pub uuid: String,
    /// The UUID of the display this display should mirror, if any.
    pub mirror_of: Option<String>,
    /// Whether the display should be enabled.
    pub enabled: Option<bool>,
    /// The desired location of the upper left corner of the display.
    pub origin: Option<Point>,
    /// The desired resolution of the display.
    pub extents: Option<Point>,
    /// Whether the desired display mode is scaled.
    pub scaled: Option<bool>,
    /// The desired refresh frequency in Hertz.
    pub frequency: Option<usize>,
    /// The desired color depth in bits.
    pub color_depth: Option<usize>,
    /// The desired rotation of the display.
    pub rotation: Option<Rotation>,
    /// The desired brightness in thousandths of full brightness.
    pub brightness: Option<i32>,
}

impl Config {
    /// A mirroring configuration may set only `uuid`, `mirror_of` and
    /// `enabled`; every other option is inherited from the mirror target.
    pub open spec fn mirror_compatible(self) -> bool {
        self.mirror_of is Some ==> {
            &&& self.origin is None
            &&& self.extents is None
            &&& self.scaled is None
            &&& self.frequency is None
            &&& self.color_depth is None
            &&& self.rotation is None
            &&& self.brightness is None
        }
    }

    /// The brightness, if requested, lies inside the allowed range.
    pub open spec fn brightness_in_range(self) -> bool {
        match self.brightness {
            Some(b) => 0 <= b <= BRIGHTNESS_SCALE,
            None => true,
        }
    }

    /// Both per-record validity conditions at once.
    pub open spec fn fields_valid(self) -> bool {
        self.mirror_compatible() && self.brightness_in_range()
    }
}

impl Clone for Config {
    /// Cloning a configuration preserves its value exactly.
    fn clone(&self) -> (res: Self)
        ensures
            res == *self,
    {
        Config {
            uuid: self.uuid.clone(),
            mirror_of: self.mirror_of.clone(),
            enabled: self.enabled,
            origin: self.origin,
            extents: self.extents,
            scaled: self.scaled,
            frequency: self.frequency,
            color_depth: self.color_depth,
            rotation: self.rotation,
            brightness: self.brightness,
        }
    }
}

impl Default for Config {
    /// The default configuration has an empty UUID and leaves every option
    /// unset.
    fn default() -> (res: Self)
        ensures
            res.uuid@ == Seq::<char>::empty(),
            res.mirror_of is None,
            res.enabled is None,
            res.origin is None,
            res.extents is None,
            res.scaled is None,
            res.frequency is None,
            res.color_depth is None,
            res.rotation is None,
            res.brightness is None,
    {
        Config {
            uuid: String::new(),
            mirror_of: None,
            enabled: None,
            origin: None,
            extents: None,
            scaled: None,
            frequency: None,
            color_depth: None,
            rotation: None,
            brightness: None,
        }
    }
}

/// A ConfigGroup describes how to configure a group of attached displays;
/// one complete "scene".  The order of the records is irrelevant.
#[derive(Debug, PartialEq)]
pub struct ConfigGroup {
    /// One configuration record per display.
    pub configs: Vec<Config>,
}

impl Clone for ConfigGroup {
    /// Cloning a group preserves the sequence of records.
    fn clone(&self) -> (res: Self)
        ensures
            res.configs@ == self.configs@,
    {
        let configs = self.configs.clone();
        proof {
            assert(configs@ =~= self.configs@);
        }
        ConfigGroup { configs }
    }
}

impl Default for ConfigGroup {
    /// The default group contains no records.
    fn default() -> (res: Self)
        ensures
            res.configs@ == Seq::<Config>::empty(),
    {
        ConfigGroup { configs: Vec::new() }
    }
}

/// ConfigGroups is a collection of ConfigGroups for different possible
/// system configurations.  Order is preserved for round-tripping but has no
/// semantic meaning.
#[derive(Debug, PartialEq)]
pub struct ConfigGroups {
    /// The candidate scenes.
    pub groups: Vec<ConfigGroup>,
}

impl Clone for ConfigGroups {
    /// Cloning preserves each group's sequence of records.
    fn clone(&self) -> (res: Self)
        ensures
            res.groups@.len() == self.groups@.len(),
            forall|i: int|
                0 <= i < self.groups@.len() ==> res.groups@[i].configs@
                    == #[trigger] self.groups@[i].configs@,
    {
        let mut groups: Vec<ConfigGroup> = Vec::new();
        let mut i: usize = 0;
        while i < self.groups.len()
            invariant
                i <= self.groups@.len(),
                groups@.len() == i,
                forall|j: int|
                    0 <= j < i ==> groups@[j].configs@ == #[trigger] self.groups@[j].configs@,
            decreases self.groups@.len() - i,
        {
            groups.push(self.groups[i].clone());
            i = i + 1;
        }
        ConfigGroups { groups }
    }
}

impl Default for ConfigGroups {
    /// The default collection contains no groups.
    fn default() -> (res: Self)
        ensures
            res.groups@ == Seq::<ConfigGroup>::empty(),
    {
        ConfigGroups { groups: Vec::new() }
    }
}

} // verus!
