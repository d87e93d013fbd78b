//! Validation of configuration groups.
//!
//! A [`ValidConfigGroup`] is the checked, indexed form of a
//! [`ConfigGroup`]: it is non-empty, names every display at most once,
//! honors the mirroring and brightness invariants, and contains no display
//! that mirrors a display which is itself mirroring.

use vstd::prelude::*;
use vstd::seq_lib::*;

use crate::config::{Config, ConfigGroup, ConfigGroups};

verus! {

/// The possible errors that can arise when validating configuration groups.
#[derive(Debug)]
pub enum Error {
    /// Reported when a configuration group contains a display with the same
    /// UUID multiple times.  The argument lists the UUIDs that appear
    /// multiple times, each once.
    DuplicateDisplays(Vec<String>),
    /// Reported when there are multiple configuration groups that contain
    /// the exact same set of displays.  The argument holds one
    /// representative of each duplicated scene.
    DuplicateGroups(Vec<ValidConfigGroup>),
    /// Reported when a configuration group contains no displays.
    EmptyGroup,
    /// Reported when a display with `mirror_of` set also has other display
    /// options set, which are not compatible with mirroring.
    InvalidMirrorConfig(String),
    /// Reported when a display is mirroring a display that itself is
    /// mirroring.  The arguments are the display and its mirror target.
    MirrorOfMirror(String, String),
    /// Reported when a brightness value, in thousandths, is outside the
    /// allowed range.
    InvalidBrightness(String, i32),
}

/// A validated configuration group: the set of UUIDs present, aligned with
/// the configuration record for each UUID.
#[derive(Debug)]
pub struct ValidConfigGroup {
    /// The UUIDs named by the group; `uuids[i]` belongs to `configs[i]`.
    pub uuids: Vec<String>,
    /// The configuration records of the group.
    pub configs: Vec<Config>,
}

/// The UUID of each record, as a sequence of character sequences.
pub open spec fn uuid_seq(s: Seq<Config>) -> Seq<Seq<char>> {
    s.map_values(|c: Config| c.uuid@)
}

/// The set of UUIDs named by a sequence of records.
pub open spec fn uuid_set(s: Seq<Config>) -> Set<Seq<char>> {
    uuid_seq(s).to_set()
}

/// The views of a sequence of strings.
pub open spec fn str_views(v: Seq<String>) -> Seq<Seq<char>> {
    v.map_values(|x: String| x@)
}

/// Whether `u` occurs among the views of `v`.
pub open spec fn in_strings(v: Seq<String>, u: Seq<char>) -> bool {
    exists|j: int| 0 <= j < v.len() && v[j]@ == u
}

/// Whether `u` appears as the UUID of two distinct records among the first
/// `k` records of `s`.
pub open spec fn duplicated_upto(s: Seq<Config>, k: int, u: Seq<char>) -> bool {
    exists|a: int, b: int| 0 <= a < b < k <= s.len() && s[a].uuid@ == u && s[b].uuid@ == u
}

/// Whether `u` appears as the UUID of two distinct records of `s`.
pub open spec fn duplicated(s: Seq<Config>, u: Seq<char>) -> bool {
    duplicated_upto(s, s.len() as int, u)
}

/// The set of UUIDs that appear more than once in `s`.
pub open spec fn dup_set(s: Seq<Config>) -> Set<Seq<char>> {
    Set::new(|u: Seq<char>| duplicated(s, u))
}

/// Whether some UUID appears twice in `s`.
pub open spec fn has_duplicate_uuids(s: Seq<Config>) -> bool {
    exists|a: int, b: int| 0 <= a < b < s.len() && s[a].uuid@ == s[b].uuid@
}

/// Whether every record in `s` satisfies the per-record validity
/// conditions (mirror compatibility and brightness range).
pub open spec fn all_fields_valid(s: Seq<Config>) -> bool {
    forall|i: int| 0 <= i < s.len() ==> (#[trigger] s[i]).fields_valid()
}

/// Whether every record before index `i` satisfies the per-record validity
/// conditions.
pub open spec fn prefix_fields_valid(s: Seq<Config>, i: int) -> bool {
    forall|j: int| 0 <= j < i ==> (#[trigger] s[j]).fields_valid()
}

/// Whether the record at index `i` mirrors a display that is itself
/// mirroring another display.
pub open spec fn mirrors_a_mirror(s: Seq<Config>, i: int) -> bool {
    &&& 0 <= i < s.len()
    &&& s[i].mirror_of is Some
    &&& exists|j: int|
        0 <= j < s.len() && (#[trigger] s[j]).uuid@ == s[i].mirror_of.unwrap()@
            && s[j].mirror_of is Some
}

/// Whether no record of `s` mirrors a display that is itself mirroring.
pub open spec fn no_chained_mirrors(s: Seq<Config>) -> bool {
    forall|i: int| 0 <= i < s.len() ==> !(#[trigger] mirrors_a_mirror(s, i))
}

/// A sequence of records forms a valid group when it is non-empty, names
/// every display at most once, each record is itself valid, and no display
/// mirrors a display that is mirroring.
pub open spec fn group_valid(s: Seq<Config>) -> bool {
    &&& s.len() > 0
    &&& all_fields_valid(s)
    &&& !has_duplicate_uuids(s)
    &&& no_chained_mirrors(s)
}

impl ValidConfigGroup {
    /// Well-formedness: the group was accepted by validation and `uuids`
    /// lists the UUID of each record, in order.
    pub open spec fn wf(self) -> bool {
        &&& self.uuids@.len() == self.configs@.len()
        &&& forall|i: int|
            0 <= i < self.configs@.len() ==> self.uuids@[i] == (#[trigger] self.configs@[i]).uuid
        &&& group_valid(self.configs@)
    }

    /// The set of UUIDs this group names.
    pub open spec fn uuid_view_set(self) -> Set<Seq<char>> {
        str_views(self.uuids@).to_set()
    }
}

impl Clone for ValidConfigGroup {
    /// Cloning preserves the UUIDs and records of the group.
    fn clone(&self) -> (res: Self)
        ensures
            res.uuids@ == self.uuids@,
            res.configs@ == self.configs@,
    {
        let uuids = self.uuids.clone();
        let configs = self.configs.clone();
        proof {
            assert(uuids@ =~= self.uuids@);
            assert(configs@ =~= self.configs@);
        }
        ValidConfigGroup { uuids, configs }
    }
}

/// Everything `ValidConfigGroup::from` promises about its result, as a
/// predicate over the input records `s` and the result `r`:
/// - the group is accepted exactly when `group_valid(s)` holds, and the
///   accepted group carries the records unchanged;
/// - the first record violating a per-record invariant is reported, naming
///   its UUID (mirror incompatibility takes precedence over brightness);
/// - otherwise duplicated UUIDs are reported, each exactly once;
/// - otherwise an empty group is reported;
/// - otherwise the first record mirroring a mirroring display is reported,
///   naming the display and its target.
pub open spec fn validation_post(s: Seq<Config>, r: Result<ValidConfigGroup, Error>) -> bool {
    &&& (r is Ok <==> group_valid(s))
    &&& (r matches Ok(v) ==> v.wf() && v.configs@ == s && v.uuids@ == s.map_values(
        |c: Config| c.uuid,
    ))
    &&& (forall|i: int|
        (0 <= i < s.len() && !(#[trigger] s[i]).mirror_compatible() && prefix_fields_valid(s, i))
            ==> (r matches Err(Error::InvalidMirrorConfig(u)) && u@ == s[i].uuid@))
    &&& (forall|i: int|
        (0 <= i < s.len() && (#[trigger] s[i]).mirror_compatible() && !s[i].brightness_in_range()
            && prefix_fields_valid(s, i)) ==> (r matches Err(Error::InvalidBrightness(u, b))
            && u@ == s[i].uuid@ && s[i].brightness == Some(b)))
    &&& ((all_fields_valid(s) && has_duplicate_uuids(s)) ==> (r matches Err(
        Error::DuplicateDisplays(us),
    ) && str_views(us@).no_duplicates() && str_views(us@).to_set() == dup_set(s)))
    &&& (s.len() == 0 ==> r matches Err(Error::EmptyGroup))
    &&& (forall|i: int|
        (all_fields_valid(s) && !has_duplicate_uuids(s) && #[trigger] mirrors_a_mirror(s, i)
            && (forall|j: int| 0 <= j < i ==> !(#[trigger] mirrors_a_mirror(s, j)))) ==> (r matches
            Err(Error::MirrorOfMirror(u, t)) && u@ == s[i].uuid@ && t@ == s[i].mirror_of.unwrap()@))
}

/// Pushing a string onto a vector extends the set of views it contains by
/// exactly the view of the new string.
proof fn lemma_in_strings_push(v: Seq<String>, x: String, u: Seq<char>)
    ensures
        in_strings(v.push(x), u) <==> (in_strings(v, u) || x@ == u),
{
    if in_strings(v.push(x), u) {
        let j = choose|j: int| 0 <= j < v.push(x).len() && v.push(x)[j]@ == u;
        if j < v.len() {
            assert(v[j]@ == u);
        } else {
            assert(x@ == u);
        }
    }
    if in_strings(v, u) {
        let j = choose|j: int| 0 <= j < v.len() && v[j]@ == u;
        assert(v.push(x)[j]@ == u);
    }
    if x@ == u {
        assert(v.push(x)[v.len() as int]@ == u);
    }
}

/// Extending the examined prefix by one record adds exactly the pairs that
/// end at the new record.
proof fn lemma_dup_upto_step(s: Seq<Config>, i: int, u: Seq<char>)
    requires
        0 <= i < s.len(),
    ensures
        duplicated_upto(s, i + 1, u) <==> (duplicated_upto(s, i, u) || (u == s[i].uuid@ && exists|
            a: int,
        |
            0 <= a < i && (#[trigger] s[a]).uuid@ == u)),
{
    if duplicated_upto(s, i + 1, u) {
        let (a, b) = choose|a: int, b: int|
            0 <= a < b < i + 1 <= s.len() && s[a].uuid@ == u && s[b].uuid@ == u;
        if b < i {
            assert(0 <= a < b < i <= s.len() && s[a].uuid@ == u && s[b].uuid@ == u);
            assert(duplicated_upto(s, i, u));
        } else {
            assert(0 <= a < i && s[a].uuid@ == u);
        }
    }
    if duplicated_upto(s, i, u) {
        let (a, b) = choose|a: int, b: int|
            0 <= a < b < i <= s.len() && s[a].uuid@ == u && s[b].uuid@ == u;
        assert(0 <= a < b < i + 1 <= s.len() && s[a].uuid@ == u && s[b].uuid@ == u);
        assert(duplicated_upto(s, i + 1, u));
    }
    if u == s[i].uuid@ && exists|a: int| 0 <= a < i && (#[trigger] s[a]).uuid@ == u {
        let a = choose|a: int| 0 <= a < i && (#[trigger] s[a]).uuid@ == u;
        assert(0 <= a < i < i + 1 <= s.len() && s[a].uuid@ == u && s[i].uuid@ == u);
        assert(duplicated_upto(s, i + 1, u));
    }
}

/// The set of views of a vector of strings contains exactly the views that
/// occur in the vector.
proof fn lemma_str_views_set(v: Seq<String>)
    ensures
        forall|u: Seq<char>| str_views(v).to_set().contains(u) <==> #[trigger] in_strings(v, u),
{
    assert forall|u: Seq<char>|
        str_views(v).to_set().contains(u) <==> #[trigger] in_strings(v, u) by {
        if str_views(v).to_set().contains(u) {
            let j = choose|j: int| 0 <= j < str_views(v).len() && str_views(v)[j] == u;
            assert(v[j]@ == u);
        }
        if in_strings(v, u) {
            let j = choose|j: int| 0 <= j < v.len() && v[j]@ == u;
            assert(str_views(v)[j] == u);
            assert(str_views(v).contains(u));
        }
    }
}

/// Whether the UUID of `target` occurs among the first `end` records.
fn uuid_in_prefix(configs: &Vec<Config>, end: usize, target: &String) -> (b: bool)
    requires
        end <= configs@.len(),
    ensures
        b == exists|j: int| 0 <= j < end && (#[trigger] configs@[j]).uuid@ == target@,
{
    let mut j: usize = 0;
    while j < end
        invariant
            end <= configs@.len(),
            j <= end,
            forall|k: int| 0 <= k < j ==> (#[trigger] configs@[k]).uuid@ != target@,
        decreases end - j,
    {
        if configs[j].uuid == *target {
            return true;
        }
        j = j + 1;
    }
    false
}

/// Whether `target` occurs among the views of `v`.
fn string_in_vec(v: &Vec<String>, target: &String) -> (b: bool)
    ensures
        b == in_strings(v@, target@),
{
    let mut j: usize = 0;
    while j < v.len()
        invariant
            j <= v@.len(),
            forall|k: int| 0 <= k < j ==> (#[trigger] v@[k])@ != target@,
        decreases v@.len() - j,
    {
        if v[j] == *target {
            return true;
        }
        j = j + 1;
    }
    false
}

/// The index of the first record whose UUID is `target`, if any.
fn find_uuid(configs: &Vec<Config>, target: &String) -> (r: Option<usize>)
    ensures
        match r {
            Some(j) => j < configs@.len() && configs@[j as int].uuid@ == target@,
            None => forall|j: int|
                0 <= j < configs@.len() ==> (#[trigger] configs@[j]).uuid@ != target@,
        },
{
    let mut j: usize = 0;
    while j < configs.len()
        invariant
            j <= configs@.len(),
            forall|k: int| 0 <= k < j ==> (#[trigger] configs@[k]).uuid@ != target@,
        decreases configs@.len() - j,
    {
        if configs[j].uuid == *target {
            return Some(j);
        }
        j = j + 1;
    }
    None
}

impl ValidConfigGroup {
    /// Convert a configuration group into its validated, indexed form.
    /// This enforces that the group is non-empty, that no two records name
    /// the same display, that mirroring records set no other options, that
    /// brightness values are in range, and that no display mirrors a
    /// display that is itself mirroring.
    pub fn from(cg: ConfigGroup) -> (r: Result<Self, Error>)
        ensures
            validation_post(cg.configs@, r),
    {
        Self::from_configs(cg.configs)
    }

    /// Worker for [`ValidConfigGroup::from`], operating on the records
    /// directly.
    fn from_configs(configs: Vec<Config>) -> (r: Result<Self, Error>)
        ensures
            validation_post(configs@, r),
    {
        let ghost s = configs@;
        let n = configs.len();

        // First pass: per-record invariants, and collection of duplicates.
        let mut dups: Vec<String> = Vec::new();
        let mut i: usize = 0;
        while i < n
            invariant
                n == s.len(),
                configs@ == s,
                i <= n,
                prefix_fields_valid(s, i as int),
                forall|a: int, b: int|
                    0 <= a < b < dups@.len() ==> (#[trigger] dups@[a])@ != (#[trigger] dups@[b])@,
                forall|u: Seq<char>| in_strings(dups@, u) <==> duplicated_upto(s, i as int, u),
            decreases n - i,
        {
            let c = &configs[i];
            if c.mirror_of.is_some() {
                if c.origin.is_some() || c.extents.is_some() || c.scaled.is_some()
                    || c.frequency.is_some() || c.color_depth.is_some() || c.rotation.is_some()
                    || c.brightness.is_some() {
                    proof {
                        assert(!s[i as int].mirror_compatible());
                        assert(!s[i as int].fields_valid());
                        assert(!all_fields_valid(s));
                        assert(!group_valid(s));
                    }
                    return Err(Error::InvalidMirrorConfig(c.uuid.clone()));
                }
            }
            match c.brightness {
                Some(b) => {
                    if b < 0 || b > crate::config::BRIGHTNESS_SCALE {
                        proof {
                            assert(s[i as int].mirror_compatible());
                            assert(!s[i as int].brightness_in_range());
                            assert(!s[i as int].fields_valid());
                            assert(!all_fields_valid(s));
                            assert(!group_valid(s));
                        }
                        return Err(Error::InvalidBrightness(c.uuid.clone(), b));
                    }
                },
                None => {},
            }
            assert(s[i as int].fields_valid());
            let ghost dups0 = dups@;
            if uuid_in_prefix(&configs, i, &c.uuid) {
                if !string_in_vec(&dups, &c.uuid) {
                    dups.push(c.uuid.clone());
                    proof {
                        assert(dups@ == dups0.push(s[i as int].uuid));
                    }
                }
            }
            proof {
                assert forall|u: Seq<char>|
                    in_strings(dups@, u) <==> duplicated_upto(s, i + 1, u) by {
                    lemma_dup_upto_step(s, i as int, u);
                    if dups@ != dups0 {
                        lemma_in_strings_push(dups0, s[i as int].uuid, u);
                    }
                }
                assert forall|a: int, b: int| 0 <= a < b < dups@.len() implies (#[trigger] dups@[a])@
                    != (#[trigger] dups@[b])@ by {
                    if dups@ != dups0 && b == dups0.len() {
                        assert(!in_strings(dups0, dups@[b]@));
                        assert(dups@[a] == dups0[a]);
                    }
                }
            }
            i = i + 1;
        }

        // If there are any duplicate displays, report the error.
        if dups.len() > 0 {
            proof {
                assert(in_strings(dups@, dups@[0]@));
                assert(duplicated_upto(s, s.len() as int, dups@[0]@));
                let (a, b) = choose|a: int, b: int|
                    0 <= a < b < s.len() <= s.len() && s[a].uuid@ == dups@[0]@ && s[b].uuid@
                        == dups@[0]@;
                assert(has_duplicate_uuids(s));
                lemma_str_views_set(dups@);
                assert forall|u: Seq<char>|
                    str_views(dups@).to_set().contains(u) == dup_set(s).contains(u) by {
                    assert(str_views(dups@).to_set().contains(u) <==> in_strings(dups@, u));
                }
                assert(str_views(dups@).to_set() =~= dup_set(s));
                assert forall|a: int, b: int|
                    0 <= a < str_views(dups@).len() && 0 <= b < str_views(dups@).len() && a
                        != b implies str_views(dups@)[a] != str_views(dups@)[b] by {
                    assert(str_views(dups@)[a] == dups@[a]@);
                    assert(str_views(dups@)[b] == dups@[b]@);
                }
                assert(str_views(dups@).no_duplicates());
                assert(!group_valid(s));
            }
            return Err(Error::DuplicateDisplays(dups));
        }
        assert(!has_duplicate_uuids(s)) by {
            if has_duplicate_uuids(s) {
                let (a, b) = choose|a: int, b: int|
                    0 <= a < b < s.len() && s[a].uuid@ == s[b].uuid@;
                assert(0 <= a < b < s.len() <= s.len() && s[a].uuid@ == s[b].uuid@ && s[b].uuid@
                    == s[b].uuid@);
                assert(duplicated_upto(s, s.len() as int, s[b].uuid@));
                assert(in_strings(dups@, s[b].uuid@));
            }
        }
        // A group must have at least one record.
        if n == 0 {
            proof {
                assert(!group_valid(s));
            }
            return Err(Error::EmptyGroup);
        }

        // Second pass: no display may mirror a display that is mirroring.
        let mut i: usize = 0;
        while i < n
            invariant
                n == s.len(),
                configs@ == s,
                i <= n,
                forall|j: int| 0 <= j < i ==> !(#[trigger] mirrors_a_mirror(s, j)),
                all_fields_valid(s),
                !has_duplicate_uuids(s),
            decreases n - i,
        {
            let m_opt = &configs[i].mirror_of;
            match m_opt {
                Some(target) => {
                    match find_uuid(&configs, target) {
                        Some(j) => {
                            if configs[j].mirror_of.is_some() {
                                proof {
                                    assert(s[j as int].uuid@ == s[i as int].mirror_of.unwrap()@);
                                    assert(mirrors_a_mirror(s, i as int));
                                    assert(!no_chained_mirrors(s));
                                    assert(!group_valid(s));
                                }
                                return Err(
                                    Error::MirrorOfMirror(configs[i].uuid.clone(), target.clone()),
                                );
                            }
                            proof {
                                // Any other record with the target's UUID would
                                // be a duplicate, so index j is the only witness
                                // that could make this a chained mirror.
                                assert forall|k: int|
                                    0 <= k < s.len() && (#[trigger] s[k]).uuid@
                                        == s[i as int].mirror_of.unwrap()@ implies s[k].mirror_of
                                    is None by {
                                    if k != j {
                                        assert(s[k].uuid@ == s[j as int].uuid@);
                                    }
                                }
                                assert(!mirrors_a_mirror(s, i as int));
                            }
                        },
                        None => {
                            assert(!mirrors_a_mirror(s, i as int));
                        },
                    }
                },
                None => {
                    assert(!mirrors_a_mirror(s, i as int));
                },
            }
            i = i + 1;
        }

        // Success: record the UUIDs alongside the records.
        let mut uuids: Vec<String> = Vec::new();
        let mut i: usize = 0;
        while i < n
            invariant
                n == s.len(),
                configs@ == s,
                i <= n,
                uuids@.len() == i,
                forall|j: int| 0 <= j < i ==> uuids@[j] == (#[trigger] s[j]).uuid,
            decreases n - i,
        {
            uuids.push(configs[i].uuid.clone());
            i = i + 1;
        }
        proof {
            assert(uuids@ =~= s.map_values(|c: Config| c.uuid));
            assert(group_valid(s));
        }
        Ok(ValidConfigGroup { uuids, configs })
    }
}

/// The precision preorder on validated groups: `a` precedes `b` when `a`
/// names a superset of the displays `b` names; two groups naming
/// incomparable sets are ordered by descending size.  This mirrors a
/// three-way comparison in which "less" means "more precise"; `group_le`
/// holds when that comparison does not answer "greater".
pub open spec fn group_le(a: ValidConfigGroup, b: ValidConfigGroup) -> bool {
    let sa = str_views(a.uuids@).to_set();
    let sb = str_views(b.uuids@).to_set();
    sb.subset_of(sa) || (!sa.subset_of(sb) && a.uuids@.len() >= b.uuids@.len())
}

/// The precision order is total: of any two groups, one may stand before
/// the other.
pub proof fn lemma_group_le_total(a: ValidConfigGroup, b: ValidConfigGroup)
    ensures
        group_le(a, b) || group_le(b, a),
{
}

/// Adjacent entries of the sequence respect the precision preorder.
pub open spec fn sorted_by_precision(s: Seq<ValidConfigGroup>) -> bool {
    forall|i: int| 0 <= i < s.len() - 1 ==> group_le(#[trigger] s[i], s[i + 1])
}

/// Whether every view in `b` also occurs in `a`.
fn uuids_superset(a: &Vec<String>, b: &Vec<String>) -> (r: bool)
    ensures
        r == str_views(b@).to_set().subset_of(str_views(a@).to_set()),
{
    proof {
        lemma_str_views_set(a@);
        lemma_str_views_set(b@);
    }
    let mut j: usize = 0;
    while j < b.len()
        invariant
            j <= b@.len(),
            forall|k: int| 0 <= k < j ==> in_strings(a@, (#[trigger] b@[k])@),
        decreases b@.len() - j,
    {
        if !string_in_vec(a, &b[j]) {
            proof {
                lemma_str_views_set(a@);
                lemma_str_views_set(b@);
                assert(str_views(b@)[j as int] == b@[j as int]@);
                assert(str_views(b@).to_set().contains(b@[j as int]@));
            }
            return false;
        }
        j = j + 1;
    }
    proof {
        lemma_str_views_set(a@);
        lemma_str_views_set(b@);
        assert forall|u: Seq<char>|
            str_views(b@).to_set().contains(u) implies str_views(a@).to_set().contains(u) by {
            assert(in_strings(b@, u));
            let k = choose|k: int| 0 <= k < b@.len() && b@[k]@ == u;
            assert(in_strings(a@, b@[k]@));
        }
    }
    true
}

/// The comparator used to sort validated groups: whether `a` may stand
/// before `b` in the precision order.
pub fn group_precedes(a: &ValidConfigGroup, b: &ValidConfigGroup) -> (r: bool)
    ensures
        r == group_le(*a, *b),
{
    if uuids_superset(&a.uuids, &b.uuids) {
        true
    } else if uuids_superset(&b.uuids, &a.uuids) {
        false
    } else {
        a.uuids.len() >= b.uuids.len()
    }
}

/// Sort validated groups by the precision order: the most precise scene
/// (naming the most displays, supersets first) comes first.  The result is
/// a permutation of the input in which every adjacent pair respects the
/// order.
pub fn sort_groups_by_precision(groups: Vec<ValidConfigGroup>) -> (r: Vec<ValidConfigGroup>)
    ensures
        r@.to_multiset() == groups@.to_multiset(),
        sorted_by_precision(r@),
{
    broadcast use vstd::seq_lib::group_to_multiset_ensures;
    broadcast use vstd::multiset::group_multiset_axioms;

    let mut rest = groups;
    let ghost all = rest@;
    let mut r: Vec<ValidConfigGroup> = Vec::new();
    while rest.len() > 0
        invariant
            sorted_by_precision(r@),
            r@.to_multiset().add(rest@.to_multiset()) =~= all.to_multiset(),
        decreases rest@.len(),
    {
        broadcast use vstd::seq_lib::group_to_multiset_ensures;
        broadcast use vstd::multiset::group_multiset_axioms;

        let ghost rest0 = rest@;
        let ghost r0 = r@;
        let g = rest.remove(0);
        let mut p = r.len();
        while p > 0 && !group_precedes(&r[p - 1], &g)
            invariant
                p <= r@.len(),
                r@ == r0,
                forall|k: int| p <= k < r@.len() ==> !group_le(#[trigger] r@[k], g),
            decreases p,
        {
            p = p - 1;
        }
        r.insert(p, g);
        proof {
            let rn = r@;
            assert(rn == r0.insert(p as int, g));
            r0.insert_ensures(p as int, g);
            assert forall|i: int| 0 <= i < rn.len() - 1 implies group_le(
                #[trigger] rn[i],
                rn[i + 1],
            ) by {
                if i + 1 < p {
                    assert(rn[i] == r0[i] && rn[i + 1] == r0[i + 1]);
                } else if i + 1 == p {
                    assert(rn[i] == r0[i] && rn[i + 1] == g);
                } else if i == p {
                    assert(rn[i] == g && rn[i + 1] == r0[i]);
                    assert(!group_le(r0[i], g));
                    lemma_group_le_total(g, r0[i]);
                } else {
                    assert(rn[i] == r0[i - 1] && rn[i + 1] == r0[i]);
                }
            }
            // Multiset bookkeeping: moving the head of `rest` into `r`
            // preserves the combined contents.
            assert(rest0[0] == g);
            assert(rest0.contains(g));
            assert(rest0.to_multiset().count(g) > 0);
            assert(rest@ == rest0.remove(0));
            assert(rest@.to_multiset() =~= rest0.to_multiset().remove(g));
            assert(rn.to_multiset() =~= r0.to_multiset().insert(g));
            assert(rn.to_multiset().add(rest@.to_multiset()) =~= r0.to_multiset().add(
                rest0.to_multiset(),
            ));
        }
    }
    r
}

/// A validated group's UUID set is the UUID set of its records.
proof fn lemma_uuid_view_set(v: ValidConfigGroup, s: Seq<Config>)
    requires
        v.uuids@ == s.map_values(|c: Config| c.uuid),
    ensures
        v.uuid_view_set() == uuid_set(s),
{
    assert(str_views(v.uuids@) =~= uuid_seq(s)) by {
        assert forall|i: int| 0 <= i < s.len() implies str_views(v.uuids@)[i] == uuid_seq(s)[i] by {
            assert(v.uuids@[i] == s.map_values(|c: Config| c.uuid)[i]);
            assert(v.uuids@[i] == s[i].uuid);
        }
    }
}

/// Whether the views of `a` and `b` contain the same set of strings.
fn sets_equal_vec(a: &Vec<String>, b: &Vec<String>) -> (r: bool)
    ensures
        r == (str_views(a@).to_set() == str_views(b@).to_set()),
{
    let ab = uuids_superset(a, b);
    let ba = uuids_superset(b, a);
    if ab && ba {
        proof {
            assert(str_views(a@).to_set() =~= str_views(b@).to_set());
        }
        true
    } else {
        false
    }
}

/// Whether every configuration group in `gs` is itself valid.
pub open spec fn groups_all_valid(gs: Seq<ConfigGroup>) -> bool {
    forall|k: int| 0 <= k < gs.len() ==> group_valid((#[trigger] gs[k]).configs@)
}

/// Whether `x` is the UUID set of two distinct groups in `gs`.
pub open spec fn duplicate_scene(gs: Seq<ConfigGroup>, x: Set<Seq<char>>) -> bool {
    exists|k1: int, k2: int|
        0 <= k1 < k2 < gs.len() && uuid_set((#[trigger] gs[k1]).configs@) == x && uuid_set(
            (#[trigger] gs[k2]).configs@,
        ) == x
}

/// Whether two distinct groups in `gs` name the same set of displays.
pub open spec fn has_duplicate_scene(gs: Seq<ConfigGroup>) -> bool {
    exists|k1: int, k2: int|
        0 <= k1 < k2 < gs.len() && uuid_set((#[trigger] gs[k1]).configs@) == uuid_set(
            (#[trigger] gs[k2]).configs@,
        )
}

/// Everything `validate_config_groups` promises about its result:
/// - it succeeds exactly when every group is individually valid and no two
///   groups name the same set of displays;
/// - on success it returns one validated group per input group, sorted by
///   the precision order;
/// - the first individually invalid group is reported exactly as
///   [`ValidConfigGroup::from`] would report it;
/// - duplicated scenes are reported with one representative per duplicated
///   UUID set.
pub open spec fn groups_validation_post(
    gs: Seq<ConfigGroup>,
    r: Result<Vec<ValidConfigGroup>, Error>,
) -> bool {
    &&& (r is Ok <==> groups_all_valid(gs) && !has_duplicate_scene(gs))
    &&& (r matches Ok(vs) ==> accepted_groups_payload(gs, vs@))
    &&& (forall|k: int|
        (0 <= k < gs.len() && !group_valid((#[trigger] gs[k]).configs@) && (forall|j: int|
            0 <= j < k ==> group_valid((#[trigger] gs[j]).configs@))) ==> (r matches Err(e)
            && validation_post(gs[k].configs@, Err(e))))
    &&& ((groups_all_valid(gs) && has_duplicate_scene(gs)) ==> (r matches Err(
        Error::DuplicateGroups(ds),
    ) && duplicate_groups_payload(gs, ds@)))
}

/// The record sequence of each validated group.
pub open spec fn valid_config_seqs(vs: Seq<ValidConfigGroup>) -> Seq<Seq<Config>> {
    vs.map_values(|v: ValidConfigGroup| v.configs@)
}

/// The record sequence of each configuration group.
pub open spec fn group_config_seqs(gs: Seq<ConfigGroup>) -> Seq<Seq<Config>> {
    gs.map_values(|g: ConfigGroup| g.configs@)
}

/// What a successful validation returns: one validated group per input
/// group (a permutation, counted with multiplicity), each well-formed,
/// sorted by the precision order.
pub open spec fn accepted_groups_payload(gs: Seq<ConfigGroup>, vs: Seq<ValidConfigGroup>) -> bool {
    &&& sorted_by_precision(vs)
    &&& vs.len() == gs.len()
    &&& forall|i: int| 0 <= i < vs.len() ==> (#[trigger] vs[i]).wf()
    &&& valid_config_seqs(vs).to_multiset() == group_config_seqs(gs).to_multiset()
}

/// Mapping a function over two sequences with equal multisets yields equal
/// multisets.
proof fn lemma_map_values_multiset<A, B>(s1: Seq<A>, s2: Seq<A>, f: spec_fn(A) -> B)
    requires
        s1.to_multiset() == s2.to_multiset(),
    ensures
        s1.map_values(f).to_multiset() == s2.map_values(f).to_multiset(),
    decreases s1.len(),
{
    broadcast use vstd::seq_lib::group_to_multiset_ensures;
    broadcast use vstd::multiset::group_multiset_axioms;

    if s1.len() == 0 {
        assert(s2.to_multiset().len() == 0);
        assert(s2.len() == 0);
        assert(s1.map_values(f) =~= s2.map_values(f));
    } else {
        let x = s1.last();
        let s1p = s1.drop_last();
        assert(s1 =~= s1p.push(x));
        assert(s1.to_multiset() == s1p.to_multiset().insert(x));
        assert(s1.contains(x)) by {
            assert(s1[s1.len() - 1] == x);
        }
        assert(s2.to_multiset().count(x) > 0);
        assert(s2.contains(x));
        let j = choose|j: int| 0 <= j < s2.len() && s2[j] == x;
        let s2p = s2.remove(j);
        assert(s2p.to_multiset() == s2.to_multiset().remove(x));
        assert(s1p.to_multiset() =~= s2p.to_multiset());
        lemma_map_values_multiset(s1p, s2p, f);
        assert(s1.map_values(f) =~= s1p.map_values(f).push(f(x)));
        assert(s1.map_values(f).to_multiset() == s1p.map_values(f).to_multiset().insert(f(x)));
        assert(s2.map_values(f).remove(j) =~= s2p.map_values(f)) by {
            s2.remove_ensures(j);
            s2.map_values(f).remove_ensures(j);
        }
        assert(s2.map_values(f)[j] == f(x));
        assert(s2.map_values(f).remove(j).to_multiset() == s2.map_values(f).to_multiset().remove(
            f(x),
        ));
        assert(s2.map_values(f).to_multiset().count(f(x)) > 0) by {
            assert(s2.map_values(f).contains(f(x))) by {
                assert(s2.map_values(f)[j] == f(x));
            }
        }
        assert(s2.map_values(f).to_multiset() =~= s2p.map_values(f).to_multiset().insert(f(x)));
        assert(s1.map_values(f).to_multiset() == s2.map_values(f).to_multiset());
    }
}

/// What a duplicate-scenes error carries: one well-formed representative of
/// each UUID set that two groups share, with pairwise distinct sets.
pub open spec fn duplicate_groups_payload(
    gs: Seq<ConfigGroup>,
    ds: Seq<ValidConfigGroup>,
) -> bool {
    &&& forall|m: int| 0 <= m < ds.len() ==> duplicate_scene(gs, (#[trigger] ds[m]).uuid_view_set())
    &&& forall|x: Set<Seq<char>>|
        #[trigger] duplicate_scene(gs, x) ==> exists|m: int|
            0 <= m < ds.len() && (#[trigger] ds[m]).uuid_view_set() == x
    &&& forall|m1: int, m2: int|
        0 <= m1 < m2 < ds.len() ==> (#[trigger] ds[m1]).uuid_view_set()
            != (#[trigger] ds[m2]).uuid_view_set()
    &&& forall|m: int| 0 <= m < ds.len() ==> (#[trigger] ds[m]).wf()
}

/// Whether some group before index `i` has the same UUID set as the group
/// at index `i`.
fn any_earlier_equal(valid: &Vec<ValidConfigGroup>, i: usize) -> (b: bool)
    requires
        i < valid@.len(),
    ensures
        b == exists|j: int|
            0 <= j < i && (#[trigger] valid@[j]).uuid_view_set() == valid@[i as int].uuid_view_set(),
{
    let mut j: usize = 0;
    while j < i
        invariant
            i < valid@.len(),
            j <= i,
            forall|k: int|
                0 <= k < j ==> (#[trigger] valid@[k]).uuid_view_set()
                    != valid@[i as int].uuid_view_set(),
        decreases i - j,
    {
        if sets_equal_vec(&valid[j].uuids, &valid[i].uuids) {
            return true;
        }
        j = j + 1;
    }
    false
}

/// Whether some group in `v` has the same UUID set as `target`.
fn set_already_collected(v: &Vec<ValidConfigGroup>, target: &ValidConfigGroup) -> (b: bool)
    ensures
        b == exists|m: int|
            0 <= m < v@.len() && (#[trigger] v@[m]).uuid_view_set() == target.uuid_view_set(),
{
    let mut m: usize = 0;
    while m < v.len()
        invariant
            m <= v@.len(),
            forall|k: int|
                0 <= k < m ==> (#[trigger] v@[k]).uuid_view_set() != target.uuid_view_set(),
        decreases v@.len() - m,
    {
        if sets_equal_vec(&v[m].uuids, &target.uuids) {
            return true;
        }
        m = m + 1;
    }
    false
}

/// Convert configuration groups into a vector of validated groups.  This
/// enforces that every group is individually valid and that no two groups
/// apply to the same set of UUIDs.  The result is sorted from the most
/// specific configuration to the least specific.
pub fn validate_config_groups(cgs: ConfigGroups) -> (r: Result<Vec<ValidConfigGroup>, Error>)
    ensures
        groups_validation_post(cgs.groups@, r),
{
    validate_groups_vec(cgs.groups)
}

/// Soundness of the collected representatives: each collected group is a
/// copy of some input group whose UUID set occurs twice among the inputs.
spec fn dup_repr_sound(vs: Seq<ValidConfigGroup>, dg: Seq<ValidConfigGroup>) -> bool {
    forall|m: int|
        0 <= m < dg.len() ==> exists|k1: int, k2: int|
            0 <= k1 < k2 < vs.len() && (#[trigger] vs[k1]).uuid_view_set()
                == (#[trigger] vs[k2]).uuid_view_set() && (#[trigger] dg[m]).uuids@
                == vs[k2].uuids@ && dg[m].configs@ == vs[k2].configs@
}

/// Completeness of the collected representatives: every UUID set duplicated
/// among the first `upto` inputs has a representative.
spec fn dup_repr_complete(vs: Seq<ValidConfigGroup>, dg: Seq<ValidConfigGroup>, upto: int) -> bool {
    forall|k1: int, k2: int|
        (0 <= k1 < k2 < upto && (#[trigger] vs[k1]).uuid_view_set()
            == (#[trigger] vs[k2]).uuid_view_set()) ==> exists|m: int|
            0 <= m < dg.len() && (#[trigger] dg[m]).uuid_view_set() == vs[k2].uuid_view_set()
}

/// The collected representatives have pairwise distinct UUID sets.
spec fn distinct_scene_sets(dg: Seq<ValidConfigGroup>) -> bool {
    forall|m1: int, m2: int|
        0 <= m1 < m2 < dg.len() ==> (#[trigger] dg[m1]).uuid_view_set()
            != (#[trigger] dg[m2]).uuid_view_set()
}

/// Collect one representative of each UUID set that occurs more than once
/// among the given validated groups.
fn collect_duplicate_scenes(valid: &Vec<ValidConfigGroup>) -> (dg: Vec<ValidConfigGroup>)
    ensures
        dup_repr_sound(valid@, dg@),
        dup_repr_complete(valid@, dg@, valid@.len() as int),
        distinct_scene_sets(dg@),
{
    let ghost vseq = valid@;
    let n = valid.len();
    let mut dg: Vec<ValidConfigGroup> = Vec::new();
    let mut i: usize = 0;
    while i < n
        invariant
            n == vseq.len(),
            valid@ == vseq,
            i <= n,
            dup_repr_sound(vseq, dg@),
            dup_repr_complete(vseq, dg@, i as int),
            distinct_scene_sets(dg@),
        decreases n - i,
    {
        if any_earlier_equal(valid, i) {
            if !set_already_collected(&dg, &valid[i]) {
                let ghost dg0 = dg@;
                let g = valid[i].clone();
                proof {
                    assert(g.uuid_view_set() == vseq[i as int].uuid_view_set());
                }
                dg.push(g);
                proof {
                    assert(dup_repr_sound(vseq, dg@)) by {
                        assert forall|m: int| 0 <= m < dg@.len() implies exists|k1: int, k2: int|
                            0 <= k1 < k2 < vseq.len() && (#[trigger] vseq[k1]).uuid_view_set()
                                == (#[trigger] vseq[k2]).uuid_view_set()
                                && (#[trigger] dg@[m]).uuids@ == vseq[k2].uuids@
                                && dg@[m].configs@ == vseq[k2].configs@ by {
                            if m < dg0.len() {
                                assert(dg@[m] == dg0[m]);
                                let (k1, k2) = choose|k1: int, k2: int|
                                    0 <= k1 < k2 < vseq.len()
                                        && (#[trigger] vseq[k1]).uuid_view_set()
                                        == (#[trigger] vseq[k2]).uuid_view_set() && dg0[m].uuids@
                                        == vseq[k2].uuids@ && dg0[m].configs@ == vseq[k2].configs@;
                                assert(0 <= k1 < k2 < vseq.len() && vseq[k1].uuid_view_set()
                                    == vseq[k2].uuid_view_set() && dg@[m].uuids@
                                    == vseq[k2].uuids@ && dg@[m].configs@ == vseq[k2].configs@);
                            } else {
                                let j = choose|j: int|
                                    0 <= j < i && (#[trigger] vseq[j]).uuid_view_set()
                                        == vseq[i as int].uuid_view_set();
                                assert(0 <= j < (i as int) && (i as int) < vseq.len()
                                    && vseq[j].uuid_view_set() == vseq[i as int].uuid_view_set()
                                    && dg@[m].uuids@ == vseq[i as int].uuids@ && dg@[m].configs@
                                    == vseq[i as int].configs@);
                            }
                        }
                    }
                    assert(dup_repr_complete(vseq, dg@, i + 1)) by {
                        assert forall|k1: int, k2: int|
                            (0 <= k1 < k2 < i + 1 && (#[trigger] vseq[k1]).uuid_view_set()
                                == (#[trigger] vseq[k2]).uuid_view_set()) implies exists|m: int|
                            0 <= m < dg@.len() && (#[trigger] dg@[m]).uuid_view_set()
                                == vseq[k2].uuid_view_set() by {
                            if k2 == i {
                                assert(dg@[dg0.len() as int].uuid_view_set()
                                    == vseq[k2].uuid_view_set());
                            } else {
                                let m = choose|m: int|
                                    0 <= m < dg0.len() && (#[trigger] dg0[m]).uuid_view_set()
                                        == vseq[k2].uuid_view_set();
                                assert(dg@[m].uuid_view_set() == vseq[k2].uuid_view_set());
                            }
                        }
                    }
                    assert(distinct_scene_sets(dg@)) by {
                        assert forall|m1: int, m2: int|
                            0 <= m1 < m2 < dg@.len() implies (#[trigger] dg@[m1]).uuid_view_set()
                            != (#[trigger] dg@[m2]).uuid_view_set() by {
                            if m2 == dg0.len() {
                                assert(dg@[m1] == dg0[m1]);
                                assert(dg@[m2].uuid_view_set() == vseq[i as int].uuid_view_set());
                            } else {
                                assert(dg@[m1] == dg0[m1] && dg@[m2] == dg0[m2]);
                            }
                        }
                    }
                }
            } else {
                proof {
                    assert(dup_repr_complete(vseq, dg@, i + 1)) by {
                        assert forall|k1: int, k2: int|
                            (0 <= k1 < k2 < i + 1 && (#[trigger] vseq[k1]).uuid_view_set()
                                == (#[trigger] vseq[k2]).uuid_view_set()) implies exists|m: int|
                            0 <= m < dg@.len() && (#[trigger] dg@[m]).uuid_view_set()
                                == vseq[k2].uuid_view_set() by {
                            if k2 == i {
                                let m = choose|m: int|
                                    0 <= m < dg@.len() && (#[trigger] dg@[m]).uuid_view_set()
                                        == vseq[i as int].uuid_view_set();
                            }
                        }
                    }
                }
            }
        } else {
            proof {
                assert(dup_repr_complete(vseq, dg@, i + 1)) by {
                    assert forall|k1: int, k2: int|
                        (0 <= k1 < k2 < i + 1 && (#[trigger] vseq[k1]).uuid_view_set()
                            == (#[trigger] vseq[k2]).uuid_view_set()) implies exists|m: int|
                        0 <= m < dg@.len() && (#[trigger] dg@[m]).uuid_view_set()
                            == vseq[k2].uuid_view_set() by {
                        assert(k2 != i);
                    }
                }
            }
        }
        i = i + 1;
    }
    dg
}

/// The per-index UUID sets of validated groups match those of the groups
/// they were validated from.
proof fn lemma_scene_transfer(gs: Seq<ConfigGroup>, vseq: Seq<ValidConfigGroup>)
    requires
        vseq.len() == gs.len(),
        forall|j: int|
            0 <= j < gs.len() ==> (#[trigger] vseq[j]).uuids@ == gs[j].configs@.map_values(
                |c: Config| c.uuid,
            ),
    ensures
        forall|j: int|
            0 <= j < gs.len() ==> (#[trigger] vseq[j]).uuid_view_set() == uuid_set(gs[j].configs@),
{
    assert forall|j: int|
        0 <= j < gs.len() implies (#[trigger] vseq[j]).uuid_view_set() == uuid_set(
        gs[j].configs@,
    ) by {
        lemma_uuid_view_set(vseq[j], gs[j].configs@);
    }
}

/// Worker for [`validate_config_groups`], operating on the groups
/// directly.
#[verifier::rlimit(50)]
fn validate_groups_vec(gs: Vec<ConfigGroup>) -> (r: Result<Vec<ValidConfigGroup>, Error>)
    ensures
        groups_validation_post(gs@, r),
{
    let n = gs.len();

    // Validate each group individually; the first violation aborts.
    let mut valid: Vec<ValidConfigGroup> = Vec::new();
    let mut k: usize = 0;
    while k < n
        invariant
            n == gs@.len(),
            k <= n,
            valid@.len() == k,
            forall|i: int| 0 <= i < k ==> group_valid((#[trigger] gs@[i]).configs@),
            forall|i: int| 0 <= i < k ==> (#[trigger] valid@[i]).wf(),
            forall|i: int| 0 <= i < k ==> (#[trigger] valid@[i]).configs@ == gs@[i].configs@,
            forall|i: int|
                0 <= i < k ==> (#[trigger] valid@[i]).uuids@ == gs@[i].configs@.map_values(
                    |c: Config| c.uuid,
                ),
        decreases n - k,
    {
        let cg = gs[k].clone();
        match ValidConfigGroup::from(cg) {
            Ok(v) => {
                valid.push(v);
            },
            Err(e) => {
                proof {
                    assert(!group_valid(gs@[k as int].configs@));
                }
                return Err(e);
            },
        }
        k = k + 1;
    }

    let ghost vseq = valid@;
    proof {
        lemma_scene_transfer(gs@, vseq);
    }

    // Collect one representative of each duplicated scene.
    let dup_groups = collect_duplicate_scenes(&valid);

    // If there are any duplicated scenes, report them.
    if dup_groups.len() > 0 {
        proof {
            let m0: int = 0;
            let (k1, k2) = choose|k1: int, k2: int|
                0 <= k1 < k2 < vseq.len() && (#[trigger] vseq[k1]).uuid_view_set()
                    == (#[trigger] vseq[k2]).uuid_view_set() && dup_groups@[m0].uuids@
                    == vseq[k2].uuids@ && dup_groups@[m0].configs@ == vseq[k2].configs@;
            assert(uuid_set(gs@[k1].configs@) == uuid_set(gs@[k2].configs@));
            assert(has_duplicate_scene(gs@));
            assert forall|m: int| 0 <= m < dup_groups@.len() implies duplicate_scene(
                gs@,
                (#[trigger] dup_groups@[m]).uuid_view_set(),
            ) && (#[trigger] dup_groups@[m]).wf() by {
                let (k1, k2) = choose|k1: int, k2: int|
                    0 <= k1 < k2 < vseq.len() && (#[trigger] vseq[k1]).uuid_view_set()
                        == (#[trigger] vseq[k2]).uuid_view_set() && dup_groups@[m].uuids@
                        == vseq[k2].uuids@ && dup_groups@[m].configs@ == vseq[k2].configs@;
                assert(dup_groups@[m].uuid_view_set() == vseq[k2].uuid_view_set());
                assert(uuid_set(gs@[k1].configs@) == dup_groups@[m].uuid_view_set());
                assert(uuid_set(gs@[k2].configs@) == dup_groups@[m].uuid_view_set());
                assert(vseq[k2].wf());
            }
            assert forall|x: Set<Seq<char>>| #[trigger] duplicate_scene(gs@, x) implies exists|
                m: int,
            |
                0 <= m < dup_groups@.len() && (#[trigger] dup_groups@[m]).uuid_view_set() == x by {
                let (k1, k2) = choose|k1: int, k2: int|
                    0 <= k1 < k2 < gs@.len() && uuid_set((#[trigger] gs@[k1]).configs@) == x
                        && uuid_set((#[trigger] gs@[k2]).configs@) == x;
                assert(vseq[k1].uuid_view_set() == vseq[k2].uuid_view_set());
            }
        }
        proof {
            assert(duplicate_groups_payload(gs@, dup_groups@));
        }
        let r: Result<Vec<ValidConfigGroup>, Error> = Err(Error::DuplicateGroups(dup_groups));
        proof {
            assert(r is Ok <==> groups_all_valid(gs@) && !has_duplicate_scene(gs@));
            assert(groups_validation_post(gs@, r));
        }
        return r;
    }

    // No duplicates: every pair of scenes is distinct.
    proof {
        assert(!has_duplicate_scene(gs@)) by {
            if has_duplicate_scene(gs@) {
                let (k1, k2) = choose|k1: int, k2: int|
                    0 <= k1 < k2 < gs@.len() && uuid_set((#[trigger] gs@[k1]).configs@) == uuid_set(
                        (#[trigger] gs@[k2]).configs@,
                    );
                assert(vseq[k1].uuid_view_set() == vseq[k2].uuid_view_set());
                assert(exists|m: int|
                    0 <= m < dup_groups@.len() && (#[trigger] dup_groups@[m]).uuid_view_set()
                        == vseq[k2].uuid_view_set());
            }
        }
    }

    // Order the groups by the most precise first.
    let sorted = sort_groups_by_precision(valid);
    proof {
        broadcast use vstd::seq_lib::group_to_multiset_ensures;

        assert(sorted@.to_multiset() == vseq.to_multiset());
        assert(sorted@.to_multiset().len() == sorted@.len());
        assert(vseq.to_multiset().len() == vseq.len());
        assert(sorted@.len() == vseq.len());
        assert forall|i: int| 0 <= i < sorted@.len() implies (#[trigger] sorted@[i]).wf() by {
            assert(sorted@.to_multiset().count(sorted@[i]) > 0);
            assert(vseq.contains(sorted@[i]));
            let k = choose|k: int| 0 <= k < vseq.len() && vseq[k] == sorted@[i];
            assert(vseq[k].wf());
        }
        lemma_map_values_multiset(sorted@, vseq, |v: ValidConfigGroup| v.configs@);
        assert(valid_config_seqs(vseq) =~= group_config_seqs(gs@));
        assert(valid_config_seqs(sorted@).to_multiset() == group_config_seqs(gs@).to_multiset());
        assert(accepted_groups_payload(gs@, sorted@));
    }
    let r: Result<Vec<ValidConfigGroup>, Error> = Ok(sorted);
    proof {
        assert(r is Ok <==> groups_all_valid(gs@) && !has_duplicate_scene(gs@));
        assert(groups_validation_post(gs@, r));
    }
    r
}

/// For any group with at least one record, no duplicate UUIDs, valid
/// mirror and brightness settings and no chained mirrors, validation
/// accepts the group, and the accepted group's UUID set has exactly as
/// many elements as the group has records.
pub proof fn lemma_valid_group_accepted(s: Seq<Config>, r: Result<ValidConfigGroup, Error>)
    requires
        validation_post(s, r),
        s.len() >= 1,
        !has_duplicate_uuids(s),
        all_fields_valid(s),
        no_chained_mirrors(s),
    ensures
        r is Ok,
        uuid_set(r.unwrap().configs@).len() == s.len(),
{
    assert(group_valid(s));
    let us = uuid_seq(s);
    assert(us.no_duplicates()) by {
        assert forall|a: int, b: int| 0 <= a < b < us.len() implies us[a] != us[b] by {
            assert(us[a] == s[a].uuid@ && us[b] == s[b].uuid@);
        }
    }
    us.unique_seq_to_set();
    assert(r.unwrap().configs@ == s);
}

/// Validation of an empty group always fails, reporting the empty group.
pub proof fn lemma_empty_group_rejected(s: Seq<Config>, r: Result<ValidConfigGroup, Error>)
    requires
        validation_post(s, r),
        s.len() == 0,
    ensures
        r matches Err(Error::EmptyGroup),
{
}

/// Validation of a group in which some UUID appears twice fails, and the
/// reported set of duplicates is exactly the set of UUIDs that appear more
/// than once.
pub proof fn lemma_duplicate_uuid_identified(s: Seq<Config>, r: Result<ValidConfigGroup, Error>)
    requires
        validation_post(s, r),
        all_fields_valid(s),
        has_duplicate_uuids(s),
    ensures
        r matches Err(Error::DuplicateDisplays(us)) && str_views(us@).to_set() == dup_set(s),
{
}

} // verus!
