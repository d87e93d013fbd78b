//! The resolution pipeline: choosing the configuration group that applies
//! to the currently attached displays, selecting a display mode for each
//! configured display, and applying the chosen configuration through a
//! transaction.

use vstd::prelude::*;
use vstd::seq_lib::*;

use crate::config::{Config, ConfigGroup, ConfigGroups};
use crate::displays;
use crate::displays::DisplayModePattern;
use crate::fake_displays::{
    apply_edit_to_displays, apply_edit_view, apply_edits, edit_views, matching_mode_views,
    mode_views, state_has_uuid, DisplayView, EditView, FakeDisplay, FakeDisplayMode,
    FakeDisplayState, ModeView,
};
use crate::valid_config;
use crate::valid_config::{str_views, ValidConfigGroup};

verus! {

/// Representation of all the possible failure modes of the pipeline.
#[derive(Debug)]
pub enum Error {
    /// A structural error found while validating the configuration groups.
    Config(valid_config::Error),
    /// An error reported by a display operation.
    Displays(displays::Error),
    /// The parsed input contains no configuration groups.
    NoConfigGroups,
    /// No configuration group matches the currently attached displays.  The
    /// argument lists the attached UUIDs.
    NoMatchingConfigGroup(Vec<String>),
    /// No display mode matches the given configuration.  The arguments are
    /// the display UUID and the configuration record.
    NoMatchingDisplayMode(String, Config),
    /// More than one display mode matches the given configuration.  The
    /// arguments are the display UUID and all matching modes.
    AmbiguousDisplayMode(String, Vec<FakeDisplayMode>),
    /// More than one configuration group of the winning size applies.  The
    /// argument lists the contending groups.
    AmbiguousConfigGroup(Vec<ValidConfigGroup>),
}

/// The mode pattern encoded by a configuration record: the subset of
/// scaled, color depth, frequency and extents that the record constrains.
pub open spec fn pattern_of(c: Config) -> DisplayModePattern {
    DisplayModePattern {
        scaled: c.scaled,
        color_depth: c.color_depth,
        frequency: c.frequency,
        extents: c.extents,
    }
}

/// Convert a `Config` to the `DisplayModePattern` it encodes.
pub fn mode_pattern_from_config(config: &Config) -> (r: DisplayModePattern)
    ensures
        r == pattern_of(*config),
{
    DisplayModePattern {
        scaled: config.scaled,
        color_depth: config.color_depth,
        frequency: config.frequency,
        extents: config.extents,
    }
}

/// Everything `select_mode` promises: the selection succeeds exactly when
/// exactly one of the display's modes matches the pattern encoded by the
/// record, and then returns that mode; zero matches and several matches are
/// reported distinctly, naming the display, and with all contenders in the
/// ambiguous case.
pub open spec fn select_mode_post(
    d: DisplayView,
    c: Config,
    r: Result<FakeDisplayMode, Error>,
) -> bool {
    let sel = matching_mode_views(d.modes, pattern_of(c));
    &&& (r is Ok <==> sel.len() == 1)
    &&& (r matches Ok(m) ==> m@ == sel[0])
    &&& (sel.len() == 0 ==> (r matches Err(Error::NoMatchingDisplayMode(u, rc)) && u@ == d.uuid
        && rc == c))
    &&& (sel.len() > 1 ==> (r matches Err(Error::AmbiguousDisplayMode(u, ms)) && u@ == d.uuid
        && mode_views(ms@) == sel))
}

/// Select a matching display mode for the given display using the
/// requested configuration.  Fails if there is no matching display mode, or
/// if the configuration does not uniquely determine one.
pub fn select_mode(display: &FakeDisplay, config: &Config) -> (r: Result<FakeDisplayMode, Error>)
    ensures
        select_mode_post(display@, *config, r),
{
    let pattern = mode_pattern_from_config(config);
    let mut modes = display.matching_modes(&pattern);
    if modes.len() > 1 {
        Err(Error::AmbiguousDisplayMode(display.uuid.clone(), modes))
    } else {
        match modes.pop() {
            Some(mode) => {
                proof {
                    assert(mode@ == matching_mode_views(display@.modes, pattern_of(*config))[0]);
                }
                Ok(mode)
            },
            None => Err(Error::NoMatchingDisplayMode(display.uuid.clone(), config.clone())),
        }
    }
}

/// The UUIDs of the attached displays, in order.
pub open spec fn attached_uuids(ds: Seq<DisplayView>) -> Seq<Seq<char>> {
    ds.map_values(|d: DisplayView| d.uuid)
}

/// The set of UUIDs of the attached displays.
pub open spec fn attached_set(ds: Seq<DisplayView>) -> Set<Seq<char>> {
    attached_uuids(ds).to_set()
}

/// A candidate group is feasible exactly when every UUID it names is
/// currently attached.
pub open spec fn feasible(g: ValidConfigGroup, ds: Seq<DisplayView>) -> bool {
    g.uuid_view_set().subset_of(attached_set(ds))
}

/// Whether the group at index `j` is feasible and of maximal size among the
/// feasible groups.
pub open spec fn max_feasible(vcgs: Seq<ValidConfigGroup>, ds: Seq<DisplayView>, j: int) -> bool {
    &&& 0 <= j < vcgs.len()
    &&& feasible(vcgs[j], ds)
    &&& forall|j2: int|
        0 <= j2 < vcgs.len() && feasible(#[trigger] vcgs[j2], ds) ==> vcgs[j2].uuids@.len()
            <= vcgs[j].uuids@.len()
}

/// Whether a group is feasible and of maximal size among the feasible
/// candidates.
pub open spec fn winning_pred(
    vcgs: Seq<ValidConfigGroup>,
    ds: Seq<DisplayView>,
) -> spec_fn(ValidConfigGroup) -> bool {
    |g: ValidConfigGroup|
        feasible(g, ds) && (forall|j2: int|
            0 <= j2 < vcgs.len() && feasible(#[trigger] vcgs[j2], ds) ==> vcgs[j2].uuids@.len()
                <= g.uuids@.len())
}

/// The feasible groups of maximal size, in candidate order.
pub open spec fn winning_groups(
    vcgs: Seq<ValidConfigGroup>,
    ds: Seq<DisplayView>,
) -> Seq<ValidConfigGroup> {
    vcgs.filter(winning_pred(vcgs, ds))
}

/// The UUIDs and records of each group, for comparing lists of groups.
pub open spec fn group_views(s: Seq<ValidConfigGroup>) -> Seq<(Seq<String>, Seq<Config>)> {
    s.map_values(|g: ValidConfigGroup| (g.uuids@, g.configs@))
}

/// What it means for a group `g` to win the resolution against candidates
/// `vcgs` and attached displays `ds`: `g` is one of the candidates, it is
/// feasible, it names the most displays among the feasible candidates, and
/// every feasible candidate of the same size names the same displays.
pub open spec fn resolution_ok(
    vcgs: Seq<ValidConfigGroup>,
    ds: Seq<DisplayView>,
    g: ValidConfigGroup,
) -> bool {
    &&& exists|i: int|
        0 <= i < vcgs.len() && g.uuids@ == (#[trigger] vcgs[i]).uuids@ && g.configs@
            == vcgs[i].configs@
    &&& feasible(g, ds)
    &&& forall|j: int|
        0 <= j < vcgs.len() && feasible(#[trigger] vcgs[j], ds) ==> vcgs[j].uuids@.len()
            <= g.uuids@.len()
    &&& forall|j: int|
        (0 <= j < vcgs.len() && feasible(#[trigger] vcgs[j], ds) && vcgs[j].uuids@.len()
            == g.uuids@.len()) ==> vcgs[j].uuid_view_set() == g.uuid_view_set()
}

/// Everything `find_most_precise_config_group` promises: success returns a
/// winning group; no feasible candidate is reported with the attached
/// UUIDs; several winning candidates are reported together.
pub open spec fn resolve_post(
    vcgs: Seq<ValidConfigGroup>,
    ds: Seq<DisplayView>,
    r: Result<ValidConfigGroup, Error>,
) -> bool {
    let w = winning_groups(vcgs, ds);
    &&& (r is Ok <==> w.len() == 1)
    &&& (r matches Ok(g) ==> resolution_ok(vcgs, ds, g) && g.uuids@ == w[0].uuids@ && g.configs@
        == w[0].configs@)
    &&& (w.len() == 0 ==> (r matches Err(Error::NoMatchingConfigGroup(us)) && str_views(us@)
        == attached_uuids(ds)))
    &&& (w.len() > 1 ==> (r matches Err(Error::AmbiguousConfigGroup(ms)) && group_views(ms@)
        == group_views(w)))
}

/// The attached-set membership test matches per-display lookup.
proof fn lemma_attached_set(ds: Seq<DisplayView>)
    ensures
        forall|u: Seq<char>| attached_set(ds).contains(u) <==> #[trigger] state_has_uuid(ds, u),
{
    assert forall|u: Seq<char>|
        attached_set(ds).contains(u) <==> #[trigger] state_has_uuid(ds, u) by {
        if attached_set(ds).contains(u) {
            let k = choose|k: int|
                0 <= k < attached_uuids(ds).len() && attached_uuids(ds)[k] == u;
            assert(ds[k].uuid == u);
        }
        if state_has_uuid(ds, u) {
            let k = choose|k: int| 0 <= k < ds.len() && (#[trigger] ds[k]).uuid == u;
            assert(attached_uuids(ds)[k] == u);
            assert(attached_uuids(ds).contains(u));
        }
    }
}

/// Whether every display the group names is currently attached.
fn group_feasible(g: &ValidConfigGroup, state: &FakeDisplayState) -> (r: bool)
    ensures
        r == feasible(*g, state@),
{
    proof {
        lemma_attached_set(state@);
    }
    let mut j: usize = 0;
    while j < g.uuids.len()
        invariant
            j <= g.uuids@.len(),
            forall|k: int| 0 <= k < j ==> state_has_uuid(state@, (#[trigger] g.uuids@[k])@),
        decreases g.uuids@.len() - j,
    {
        if !state_knows(state, &g.uuids[j]) {
            proof {
                lemma_attached_set(state@);
                assert(str_views(g.uuids@)[j as int] == g.uuids@[j as int]@);
                assert(g.uuid_view_set().contains(g.uuids@[j as int]@));
                assert(!attached_set(state@).contains(g.uuids@[j as int]@));
            }
            return false;
        }
        j = j + 1;
    }
    proof {
        lemma_attached_set(state@);
        assert forall|u: Seq<char>|
            g.uuid_view_set().contains(u) implies attached_set(state@).contains(u) by {
            let k = choose|k: int|
                0 <= k < str_views(g.uuids@).len() && str_views(g.uuids@)[k] == u;
            assert(g.uuids@[k]@ == u);
            assert(state_has_uuid(state@, g.uuids@[k]@));
        }
    }
    true
}

/// Whether the state contains a display with the given UUID.
fn state_knows(state: &FakeDisplayState, uuid: &String) -> (r: bool)
    ensures
        r == state_has_uuid(state@, uuid@),
{
    let mut k: usize = 0;
    while k < state.displays.len()
        invariant
            k <= state.displays@.len(),
            forall|k2: int| 0 <= k2 < k ==> (#[trigger] state@[k2]).uuid != uuid@,
        decreases state.displays@.len() - k,
    {
        if state.displays[k].uuid == *uuid {
            proof {
                assert(state@[k as int].uuid == uuid@);
            }
            return true;
        }
        k = k + 1;
    }
    false
}

/// Find the configuration group that applies to the current display state:
/// the feasible candidate naming the most displays.  Fails when no
/// candidate is feasible, or when several distinct candidates of the
/// winning size are feasible.
pub fn find_most_precise_config_group(
    vcgs: &Vec<ValidConfigGroup>,
    state: &FakeDisplayState,
) -> (r: Result<ValidConfigGroup, Error>)
    ensures
        resolve_post(vcgs@, state@, r),
{
    let ghost ds = state@;

    // First pass: find the size of the largest feasible candidate.
    let mut best_len: usize = 0;
    let mut any_feasible = false;
    let mut j: usize = 0;
    while j < vcgs.len()
        invariant
            j <= vcgs@.len(),
            state@ == ds,
            !any_feasible ==> best_len == 0 && forall|k: int|
                0 <= k < j ==> !feasible(#[trigger] vcgs@[k], ds),
            any_feasible ==> exists|k: int|
                0 <= k < j && feasible(#[trigger] vcgs@[k], ds) && vcgs@[k].uuids@.len()
                    == best_len,
            forall|k: int|
                0 <= k < j && feasible(#[trigger] vcgs@[k], ds) ==> vcgs@[k].uuids@.len()
                    <= best_len,
        decreases vcgs@.len() - j,
    {
        if group_feasible(&vcgs[j], state) {
            if !any_feasible || vcgs[j].uuids.len() > best_len {
                best_len = vcgs[j].uuids.len();
            }
            any_feasible = true;
        }
        j = j + 1;
    }

    // No feasible candidate: report the attached displays.
    if !any_feasible {
        proof {
            assert(winning_groups(vcgs@, ds) =~= Seq::<ValidConfigGroup>::empty()) by {
                vcgs@.lemma_all_neg_filter_empty(winning_pred(vcgs@, ds));
            }
        }
        let mut us: Vec<String> = Vec::new();
        let mut k: usize = 0;
        while k < state.displays.len()
            invariant
                k <= state.displays@.len(),
                state@ == ds,
                us@.len() == k,
                forall|k2: int| 0 <= k2 < k ==> (#[trigger] us@[k2])@ == ds[k2].uuid,
            decreases state.displays@.len() - k,
        {
            us.push(state.displays[k].uuid.clone());
            k = k + 1;
        }
        proof {
            assert(str_views(us@) =~= attached_uuids(ds));
        }
        return Err(Error::NoMatchingConfigGroup(us));
    }

    // Second pass: collect the feasible candidates of the winning size.
    let ghost pred = winning_pred(vcgs@, ds);
    let mut matching: Vec<ValidConfigGroup> = Vec::new();
    let mut j: usize = 0;
    proof {
        reveal(Seq::filter);
        assert(vcgs@.take(0) =~= Seq::<ValidConfigGroup>::empty());
        assert(group_views(matching@) =~= group_views(vcgs@.take(0).filter(pred)));
    }
    while j < vcgs.len()
        invariant
            j <= vcgs@.len(),
            state@ == ds,
            pred == winning_pred(vcgs@, ds),
            group_views(matching@) == group_views(vcgs@.take(j as int).filter(pred)),
            exists|k: int|
                0 <= k < vcgs@.len() && feasible(#[trigger] vcgs@[k], ds) && vcgs@[k].uuids@.len()
                    == best_len,
            forall|k: int|
                0 <= k < vcgs@.len() && feasible(#[trigger] vcgs@[k], ds) ==> vcgs@[k].uuids@.len()
                    <= best_len,
        decreases vcgs@.len() - j,
    {
        let ghost m0 = group_views(matching@);
        let is_winner = if group_feasible(&vcgs[j], state) {
            vcgs[j].uuids.len() == best_len
        } else {
            false
        };
        proof {
            assert(is_winner == pred(vcgs@[j as int]));
        }
        if is_winner {
            matching.push(vcgs[j].clone());
            proof {
                assert(group_views(matching@) =~= m0.push(
                    (vcgs@[j as int].uuids@, vcgs@[j as int].configs@),
                ));
            }
        }
        proof {
            reveal(Seq::filter);
            let post = vcgs@.take(j + 1);
            assert(post.drop_last() =~= vcgs@.take(j as int));
            assert(post.last() == vcgs@[j as int]);
            assert(group_views(matching@) =~= group_views(post.filter(pred)));
        }
        j = j + 1;
    }
    proof {
        assert(vcgs@.take(vcgs@.len() as int) =~= vcgs@);
        assert(group_views(matching@) == group_views(winning_groups(vcgs@, ds)));
        assert(matching@.len() == winning_groups(vcgs@, ds).len());
        // The witness of the best length is a winning group, so at least
        // one candidate was collected.
        let k = choose|k: int|
            0 <= k < vcgs@.len() && feasible(#[trigger] vcgs@[k], ds) && vcgs@[k].uuids@.len()
                == best_len;
        assert(pred(vcgs@[k]));
        vcgs@.lemma_filter_contains(pred, k);
        assert(winning_groups(vcgs@, ds).contains(vcgs@[k]));
        assert(winning_groups(vcgs@, ds).len() > 0);
    }

    if matching.len() == 1 {
        let ghost mseq = matching@;
        let g = matching.pop().unwrap();
        proof {
            let w = winning_groups(vcgs@, ds);
            assert(g == mseq[0]);
            assert(group_views(mseq)[0] == group_views(w)[0]);
            assert(g.uuids@ == w[0].uuids@ && g.configs@ == w[0].configs@);
            assert(winning_pred(vcgs@, ds)(w[0])) by {
                vcgs@.lemma_filter_pred(winning_pred(vcgs@, ds), 0);
            }
            // The winner is one of the candidates.
            lemma_filter_elems(vcgs@, winning_pred(vcgs@, ds));
            assert(vcgs@.contains(w[0]));
            let i = choose|i: int| 0 <= i < vcgs@.len() && vcgs@[i] == w[0];
            assert(g.uuids@ == (vcgs@[i]).uuids@ && g.configs@ == vcgs@[i].configs@);
            // Uniqueness: any feasible candidate of the winning size is
            // itself a winning group, and there is only one.
            assert forall|j2: int|
                (0 <= j2 < vcgs@.len() && feasible(#[trigger] vcgs@[j2], ds)
                    && vcgs@[j2].uuids@.len() == g.uuids@.len()) implies vcgs@[j2].uuid_view_set()
                == g.uuid_view_set() by {
                assert(winning_pred(vcgs@, ds)(vcgs@[j2]));
                vcgs@.lemma_filter_contains(winning_pred(vcgs@, ds), j2);
                let m = choose|m: int| 0 <= m < w.len() && w[m] == vcgs@[j2];
                assert(m == 0);
            }
            assert(resolution_ok(vcgs@, ds, g));
        }
        Ok(g)
    } else {
        proof {
            assert(matching@.len() >= 2);
        }
        Err(Error::AmbiguousConfigGroup(matching))
    }
}

/// Every element of a filtered sequence occurs in the sequence it was
/// filtered from.
proof fn lemma_filter_elems<A>(s: Seq<A>, pred: spec_fn(A) -> bool)
    ensures
        forall|i: int|
            0 <= i < s.filter(pred).len() ==> s.contains(#[trigger] s.filter(pred)[i]),
    decreases s.len(),
{
    reveal(Seq::filter);
    if s.len() > 0 {
        lemma_filter_elems(s.drop_last(), pred);
        assert forall|i: int|
            0 <= i < s.filter(pred).len() implies s.contains(#[trigger] s.filter(pred)[i]) by {
            let sub = s.drop_last().filter(pred);
            if i < sub.len() {
                assert(s.filter(pred)[i] == sub[i]);
                assert(s.drop_last().contains(sub[i]));
                let k = choose|k: int| 0 <= k < s.drop_last().len() && s.drop_last()[k] == sub[i];
                assert(s[k] == sub[i]);
            } else {
                assert(s.filter(pred)[i] == s.last());
                assert(s[s.len() - 1] == s.last());
            }
        }
    }
}

/// Precision preference: a feasible candidate that names more displays
/// always wins over a feasible candidate that names fewer; the smaller
/// group can never be the resolution, and any resolution names at least as
/// many displays as the larger group.
pub proof fn lemma_more_precise_group_wins(
    vcgs: Seq<ValidConfigGroup>,
    ds: Seq<DisplayView>,
    i: int,
    j: int,
)
    requires
        0 <= i < vcgs.len(),
        0 <= j < vcgs.len(),
        feasible(vcgs[i], ds),
        feasible(vcgs[j], ds),
        vcgs[i].uuids@.len() > vcgs[j].uuids@.len(),
    ensures
        !resolution_ok(vcgs, ds, vcgs[j]),
        forall|g: ValidConfigGroup|
            #[trigger] resolution_ok(vcgs, ds, g) ==> g.uuids@.len() >= vcgs[i].uuids@.len(),
{
}

/// Ambiguity: when two feasible candidates of equal, maximal size name
/// different displays, no candidate wins the resolution, and the resolver
/// reports both contenders.
pub proof fn lemma_equal_precision_ambiguous(
    vcgs: Seq<ValidConfigGroup>,
    ds: Seq<DisplayView>,
    i: int,
    j: int,
    r: Result<ValidConfigGroup, Error>,
)
    requires
        0 <= i < j < vcgs.len(),
        max_feasible(vcgs, ds, i),
        max_feasible(vcgs, ds, j),
        vcgs[i].uuid_view_set() != vcgs[j].uuid_view_set(),
        resolve_post(vcgs, ds, r),
    ensures
        forall|g: ValidConfigGroup| !#[trigger] resolution_ok(vcgs, ds, g),
        r matches Err(Error::AmbiguousConfigGroup(ms)) && exists|m1: int, m2: int|
            0 <= m1 < m2 < ms@.len() && group_views(ms@)[m1] == (vcgs[i].uuids@, vcgs[i].configs@)
                && group_views(ms@)[m2] == (vcgs[j].uuids@, vcgs[j].configs@),
{
    let pred = winning_pred(vcgs, ds);
    let w = winning_groups(vcgs, ds);
    // No group can satisfy resolution_ok: both contenders are feasible with
    // the maximal size but name different displays.
    assert forall|g: ValidConfigGroup| !#[trigger] resolution_ok(vcgs, ds, g) by {
        if resolution_ok(vcgs, ds, g) {
            assert(vcgs[i].uuids@.len() == g.uuids@.len() && vcgs[j].uuids@.len()
                == g.uuids@.len());
            assert(vcgs[i].uuid_view_set() == g.uuid_view_set());
            assert(vcgs[j].uuid_view_set() == g.uuid_view_set());
        }
    }
    // Both contenders appear among the winning groups, so the resolver
    // reported an ambiguity.
    assert(pred(vcgs[i]));
    assert(pred(vcgs[j]));
    lemma_filter_two(vcgs, pred, i, j);
    let (m1, m2) = choose|m1: int, m2: int|
        0 <= m1 < m2 < vcgs.filter(pred).len() && vcgs.filter(pred)[m1] == vcgs[i] && vcgs.filter(
            pred,
        )[m2] == vcgs[j];
    assert(w.len() >= 2);
    assert(group_views(w)[m1] == (vcgs[i].uuids@, vcgs[i].configs@));
    assert(group_views(w)[m2] == (vcgs[j].uuids@, vcgs[j].configs@));
    match r {
        Result::Err(Error::AmbiguousConfigGroup(ms)) => {
            assert(group_views(ms@) == group_views(w));
            assert(ms@.len() == group_views(ms@).len() && w.len() == group_views(w).len());
            assert(0 <= m1 < m2 < ms@.len() && group_views(ms@)[m1] == (
                vcgs[i].uuids@,
                vcgs[i].configs@,
            ) && group_views(ms@)[m2] == (vcgs[j].uuids@, vcgs[j].configs@));
        },
        _ => {
            assert(false);
        },
    }
}

/// Two distinct elements that satisfy the filter predicate appear, in
/// order, at distinct positions of the filtered sequence.
proof fn lemma_filter_two<A>(s: Seq<A>, pred: spec_fn(A) -> bool, i: int, j: int)
    requires
        0 <= i < j < s.len(),
        pred(s[i]),
        pred(s[j]),
    ensures
        exists|m1: int, m2: int|
            0 <= m1 < m2 < s.filter(pred).len() && s.filter(pred)[m1] == s[i] && s.filter(pred)[m2]
                == s[j],
    decreases s.len(),
{
    reveal(Seq::filter);
    broadcast use vstd::seq_lib::group_filter_ensures;

    if j == s.len() - 1 {
        // s[j] is the last element kept by the filter.
        let sub = s.drop_last().filter(pred);
        assert(s.drop_last()[i] == s[i]);
        s.drop_last().lemma_filter_contains(pred, i);
        let m1 = choose|m1: int| 0 <= m1 < sub.len() && sub[m1] == s[i];
        assert(s.filter(pred)[m1] == s[i]);
        assert(s.filter(pred)[sub.len() as int] == s[j]);
        assert(0 <= m1 && m1 < sub.len() && sub.len() < s.filter(pred).len());
    } else {
        lemma_filter_two(s.drop_last(), pred, i, j);
        let sub = s.drop_last().filter(pred);
        let (m1, m2) = choose|m1: int, m2: int|
            0 <= m1 < m2 < sub.len() && sub[m1] == s.drop_last()[i] && sub[m2] == s.drop_last()[j];
        assert(s.drop_last()[i] == s[i] && s.drop_last()[j] == s[j]);
        if pred(s.last()) {
            assert(s.filter(pred)[m1] == s[i] && s.filter(pred)[m2] == s[j]);
        } else {
            assert(s.filter(pred) == sub);
        }
    }
}

/// Mode selection against an unconstrained pattern keeps every mode, so it
/// fails exactly when the display offers zero or several modes; and
/// whenever exactly one mode matches a pattern, that mode is returned.
pub proof fn lemma_mode_selection_determined(
    d: DisplayView,
    c: Config,
    r: Result<FakeDisplayMode, Error>,
)
    requires
        select_mode_post(d, c, r),
    ensures
        pattern_of(c).is_unconstrained() ==> (r is Ok <==> d.modes.len() == 1),
        matching_mode_views(d.modes, pattern_of(c)).len() == 1 ==> (r matches Ok(m) && m@
            == matching_mode_views(d.modes, pattern_of(c))[0]),
{
    if pattern_of(c).is_unconstrained() {
        lemma_unconstrained_matches_all(d.modes, pattern_of(c));
    }
}

/// An unconstrained pattern matches every mode.
pub proof fn lemma_unconstrained_matches_all(modes: Seq<crate::fake_displays::ModeView>, p: DisplayModePattern)
    requires
        p.is_unconstrained(),
    ensures
        matching_mode_views(modes, p) == modes,
    decreases modes.len(),
{
    reveal(Seq::filter);
    if modes.len() > 0 {
        lemma_unconstrained_matches_all(modes.drop_last(), p);
        assert(matching_mode_views(modes, p) =~= modes);
    } else {
        assert(matching_mode_views(modes, p) =~= modes);
    }
}


/// The display in `ds` with UUID `u`; meaningful when such a display is
/// attached and UUIDs are unique.
pub open spec fn display_for(ds: Seq<DisplayView>, u: Seq<char>) -> DisplayView {
    ds[choose|k: int| 0 <= k < ds.len() && ds[k].uuid == u]
}

/// The unique display mode matching the record's pattern on the record's
/// display; meaningful when exactly one mode matches.
pub open spec fn chosen_mode(ds: Seq<DisplayView>, c: Config) -> ModeView {
    matching_mode_views(display_for(ds, c.uuid@).modes, pattern_of(c))[0]
}

/// How many of the display's modes match the record's pattern.
pub open spec fn match_count(ds: Seq<DisplayView>, c: Config) -> int {
    matching_mode_views(display_for(ds, c.uuid@).modes, pattern_of(c)).len() as int
}

/// Mode selection succeeds for every record that does not mirror: exactly
/// one mode matches its pattern.
pub open spec fn mode_selection_ok(ds: Seq<DisplayView>, configs: Seq<Config>) -> bool {
    forall|i: int|
        0 <= i < configs.len() && (#[trigger] configs[i]).mirror_of is None ==> match_count(
            ds,
            configs[i],
        ) == 1
}

/// Mode selection succeeds for every non-mirroring record before index `n`.
pub open spec fn prefix_selection_ok(ds: Seq<DisplayView>, configs: Seq<Config>, n: int) -> bool {
    forall|i: int|
        0 <= i < n && (#[trigger] configs[i]).mirror_of is None ==> match_count(ds, configs[i])
            == 1
}

/// The rotation edit a record requests, if any.
pub open spec fn opt_rotation_edit(c: Config) -> Seq<(Seq<char>, EditView)> {
    match c.rotation {
        Some(rot) => seq![(c.uuid@, EditView::SetRotation(rot))],
        None => Seq::empty(),
    }
}

/// The brightness edit a record requests, if any.
pub open spec fn opt_brightness_edit(c: Config) -> Seq<(Seq<char>, EditView)> {
    match c.brightness {
        Some(b) => seq![(c.uuid@, EditView::SetBrightness(b))],
        None => Seq::empty(),
    }
}

/// The origin edit a record requests, if any.
pub open spec fn opt_origin_edit(c: Config) -> Seq<(Seq<char>, EditView)> {
    match c.origin {
        Some(p) => seq![(c.uuid@, EditView::SetOrigin(p))],
        None => Seq::empty(),
    }
}

/// The ordered edits one configuration record contributes:
/// - a mirroring record sets its mirror target, then honors an explicit
///   `enabled: false`, and nothing else;
/// - a record that disables its display contributes only that;
/// - otherwise mirroring is cleared, then rotation, brightness, the
///   selected mode and the origin are applied, each only when requested.
pub open spec fn config_edits(c: Config, m: ModeView) -> Seq<(Seq<char>, EditView)> {
    let u = c.uuid@;
    if c.mirror_of is Some {
        let base = seq![(u, EditView::SetMirroring(Some(c.mirror_of.unwrap()@)))];
        if c.enabled == Some(false) {
            base + seq![(u, EditView::SetEnabled(false))]
        } else {
            base
        }
    } else if c.enabled == Some(false) {
        seq![(u, EditView::SetEnabled(false))]
    } else {
        seq![(u, EditView::SetMirroring(None::<Seq<char>>))] + opt_rotation_edit(c)
            + opt_brightness_edit(c) + seq![(u, EditView::SetMode(m))] + opt_origin_edit(c)
    }
}

/// The ordered edits of a whole group: the edits of each record in turn.
pub open spec fn group_plan(ds: Seq<DisplayView>, configs: Seq<Config>) -> Seq<
    (Seq<char>, EditView),
>
    decreases configs.len(),
{
    if configs.len() == 0 {
        Seq::empty()
    } else {
        group_plan(ds, configs.drop_last()) + config_edits(
            configs.last(),
            chosen_mode(ds, configs.last()),
        )
    }
}

/// Every mode offered by a display carries that display's UUID.
pub open spec fn modes_belong(ds: Seq<DisplayView>) -> bool {
    forall|k: int, mi: int|
        0 <= k < ds.len() && 0 <= mi < (#[trigger] ds[k]).modes.len() ==> (#[trigger] ds[k].modes[mi]).uuid
            == ds[k].uuid
}

/// Everything `configure_displays` promises over the initial displays `ds`,
/// the group's records, the resulting displays `fs` and the result:
/// - it succeeds exactly when mode selection succeeds for every
///   non-mirroring record, and then the displays are exactly the initial
///   displays with the group's ordered edit plan applied;
/// - on failure the displays are unchanged, and the first non-mirroring
///   record whose pattern matches no mode, or several modes, is reported.
pub open spec fn configure_post(
    ds: Seq<DisplayView>,
    configs: Seq<Config>,
    fs: Seq<DisplayView>,
    r: Result<(), Error>,
) -> bool {
    &&& (r is Ok <==> mode_selection_ok(ds, configs))
    &&& (r is Ok ==> fs == apply_edits(ds, group_plan(ds, configs)))
    &&& (!(r is Ok) ==> fs == ds)
    &&& (forall|i: int|
        (0 <= i < configs.len() && (#[trigger] configs[i]).mirror_of is None && match_count(
            ds,
            configs[i],
        ) == 0 && prefix_selection_ok(ds, configs, i)) ==> (r matches Err(
            Error::NoMatchingDisplayMode(u, rc),
        ) && u@ == configs[i].uuid@ && rc == configs[i]))
    &&& (forall|i: int|
        (0 <= i < configs.len() && (#[trigger] configs[i]).mirror_of is None && match_count(
            ds,
            configs[i],
        ) > 1 && prefix_selection_ok(ds, configs, i)) ==> (r matches Err(
            Error::AmbiguousDisplayMode(u, ms),
        ) && u@ == configs[i].uuid@ && mode_views(ms@) == matching_mode_views(
            display_for(ds, configs[i].uuid@).modes,
            pattern_of(configs[i]),
        )))
}

/// The index of the display with the given UUID.
fn find_display_index(state: &FakeDisplayState, uuid: &String) -> (r: usize)
    requires
        state_has_uuid(state@, uuid@),
    ensures
        r < state@.len() && state@[r as int].uuid == uuid@,
{
    let mut k: usize = 0;
    while k < state.displays.len()
        invariant
            k <= state.displays@.len(),
            forall|k2: int| 0 <= k2 < k ==> (#[trigger] state@[k2]).uuid != uuid@,
            state_has_uuid(state@, uuid@),
        decreases state.displays@.len() - k,
    {
        if state.displays[k].uuid == *uuid {
            proof {
                assert(state@[k as int].uuid == uuid@);
            }
            return k;
        }
        k = k + 1;
    }
    proof {
        let k0 = choose|k0: int| 0 <= k0 < state@.len() && (#[trigger] state@[k0]).uuid == uuid@;
        assert(false);
    }
    0
}

/// Extending the group plan by one record appends that record's edits.
proof fn lemma_plan_step(ds: Seq<DisplayView>, configs: Seq<Config>, i: int)
    requires
        0 <= i < configs.len(),
    ensures
        group_plan(ds, configs.take(i + 1)) == group_plan(ds, configs.take(i)) + config_edits(
            configs[i],
            chosen_mode(ds, configs[i]),
        ),
{
    assert(configs.take(i + 1).drop_last() =~= configs.take(i));
    assert(configs.take(i + 1).last() == configs[i]);
}

/// A UUID attached in the state is known to a transaction whose UUID list
/// was drawn from the state.
proof fn lemma_state_uuid_known(uuids: Seq<String>, ds: Seq<DisplayView>, u: Seq<char>)
    requires
        str_views(uuids) == attached_uuids(ds),
        state_has_uuid(ds, u),
    ensures
        crate::valid_config::in_strings(uuids, u),
{
    let k = choose|k: int| 0 <= k < ds.len() && (#[trigger] ds[k]).uuid == u;
    assert(attached_uuids(ds).len() == ds.len());
    assert(str_views(uuids).len() == uuids.len());
    assert(attached_uuids(ds)[k] == u);
    assert(str_views(uuids)[k] == u);
    assert(uuids[k]@ == u);
    assert(0 <= k < uuids.len());
}

/// A record of a well-formed feasible group names an attached display.
proof fn lemma_group_uuid_attached(g: ValidConfigGroup, ds: Seq<DisplayView>, i: int)
    requires
        g.wf(),
        feasible(g, ds),
        0 <= i < g.configs@.len(),
    ensures
        state_has_uuid(ds, g.configs@[i].uuid@),
        attached_set(ds).contains(g.configs@[i].uuid@),
{
    assert(g.uuids@[i] == g.configs@[i].uuid);
    assert(str_views(g.uuids@)[i] == g.configs@[i].uuid@);
    assert(str_views(g.uuids@).contains(g.configs@[i].uuid@));
    assert(g.uuid_view_set().contains(g.configs@[i].uuid@));
    lemma_attached_set(ds);
}

/// Configure displays from a validated, feasible configuration group: pick
/// a mode for each non-mirroring record, then drive a transaction through
/// the per-display edits and commit it.
#[verifier::rlimit(50)]
pub fn configure_displays(state: &mut FakeDisplayState, config_group: &ValidConfigGroup) -> (r:
    Result<(), Error>)
    requires
        old(state).wf(),
        config_group.wf(),
        feasible(*config_group, old(state)@),
        modes_belong(old(state)@),
    ensures
        configure_post(old(state)@, config_group.configs@, final(state)@, r),
{
    let ghost ds = state@;
    let n = config_group.configs.len();

    // Determine that we can find an appropriate display mode for each
    // record before we start configuring.  Mirroring records inherit the
    // mirrored display's mode and are skipped.
    let mut selected: Vec<Option<FakeDisplayMode>> = Vec::new();
    let mut i: usize = 0;
    while i < n
        invariant
            ds == old(state)@,
            state@ == ds,
            old(state).wf(),
            config_group.wf(),
            feasible(*config_group, ds),
            modes_belong(ds),
            n == config_group.configs@.len(),
            i <= n,
            selected@.len() == i,
            prefix_selection_ok(ds, config_group.configs@, i as int),
            forall|i2: int|
                0 <= i2 < i && (#[trigger] config_group.configs@[i2]).mirror_of is Some
                    ==> selected@[i2] is None,
            forall|i2: int|
                0 <= i2 < i && (#[trigger] config_group.configs@[i2]).mirror_of is None ==> (
                selected@[i2] matches Some(m) && m@ == chosen_mode(ds, config_group.configs@[i2])
                    && m@.uuid == config_group.configs@[i2].uuid@),
        decreases n - i,
    {
        let c = &config_group.configs[i];
        if c.mirror_of.is_some() {
            selected.push(None);
        } else {
            proof {
                lemma_group_uuid_attached(*config_group, ds, i as int);
            }
            let di = find_display_index(state, &c.uuid);
            proof {
                // UUIDs are unique, so this is the display the spec names.
                let k0 = choose|k0: int|
                    0 <= k0 < ds.len() && ds[k0].uuid == config_group.configs@[i as int].uuid@;
                assert(k0 == di as int);
                assert(display_for(ds, config_group.configs@[i as int].uuid@) == ds[di as int]);
            }
            match select_mode(&state.displays[di], c) {
                Ok(m) => {
                    proof {
                        let sel = matching_mode_views(ds[di as int].modes, pattern_of(*c));
                        assert(m@ == sel[0]);
                        // The selected mode is one of the display's modes,
                        // so it carries the display's UUID.
                        lemma_filter_elems(
                            ds[di as int].modes,
                            |mv: ModeView| crate::fake_displays::mode_matches(mv, pattern_of(*c)),
                        );
                        assert(ds[di as int].modes.contains(sel[0]));
                        let mi = choose|mi: int|
                            0 <= mi < ds[di as int].modes.len() && ds[di as int].modes[mi]
                                == sel[0];
                        assert(m@.uuid == ds[di as int].uuid);
                    }
                    selected.push(Some(m));
                },
                Err(e) => {
                    return Err(e);
                },
            }
        }
        i = i + 1;
    }

    // All modes found: drive the transaction.
    let mut txn = match state.configure() {
        Ok(t) => t,
        Err(e) => {
            proof {
                assert(false);
            }
            return Err(Error::Displays(e));
        },
    };
    let mut i: usize = 0;
    proof {
        assert(config_group.configs@.take(0) =~= Seq::<Config>::empty());
        assert(edit_views(txn.edits@) =~= group_plan(ds, config_group.configs@.take(0)));
    }
    while i < n
        invariant
            ds == old(state)@,
            state@ == ds,
            old(state).wf(),
            config_group.wf(),
            feasible(*config_group, ds),
            modes_belong(ds),
            mode_selection_ok(ds, config_group.configs@),
            n == config_group.configs@.len(),
            i <= n,
            selected@.len() == n,
            !txn.dropped,
            str_views(txn.uuids@) == attached_uuids(ds),
            edit_views(txn.edits@) == group_plan(ds, config_group.configs@.take(i as int)),
            forall|j: int|
                0 <= j < edit_views(txn.edits@).len() ==> state_has_uuid(
                    ds,
                    (#[trigger] edit_views(txn.edits@)[j]).0,
                ),
            forall|j: int, i2: int|
                0 <= j < edit_views(txn.edits@).len() && i <= i2 < n ==> (#[trigger] edit_views(
                    txn.edits@,
                )[j]).0 != (#[trigger] config_group.configs@[i2]).uuid@,
            forall|i2: int|
                0 <= i2 < n && (#[trigger] config_group.configs@[i2]).mirror_of is None ==> (
                selected@[i2] matches Some(m) && m@ == chosen_mode(ds, config_group.configs@[i2])
                    && m@.uuid == config_group.configs@[i2].uuid@),
        decreases n - i,
    {
        let ghost plan0 = edit_views(txn.edits@);
        let ghost c_spec = config_group.configs@[i as int];
        let c = &config_group.configs[i];
        proof {
            lemma_group_uuid_attached(*config_group, ds, i as int);
            lemma_state_uuid_known(txn.uuids@, ds, c_spec.uuid@);
            assert(txn.knows(c_spec.uuid@));
        }
        let ghost goal = plan0 + config_edits(c_spec, chosen_mode(ds, c_spec));
        match &c.mirror_of {
            Some(target) => {
                match txn.set_mirroring(c.uuid.as_str(), Some(target.as_str())) {
                    Ok(_) => {},
                    Err(e) => {
                        proof {
                            assert(false);
                        }
                        return Err(Error::Displays(e));
                    },
                }
                let disable = match c.enabled {
                    Some(false) => true,
                    _ => false,
                };
                if disable {
                    match txn.set_enabled(c.uuid.as_str(), false) {
                        Ok(_) => {},
                        Err(e) => {
                            proof {
                                assert(false);
                            }
                            return Err(Error::Displays(e));
                        },
                    }
                    proof {
                        assert(edit_views(txn.edits@) =~= goal);
                    }
                } else {
                    proof {
                        assert(edit_views(txn.edits@) =~= goal);
                    }
                }
            },
            None => {
                let disable = match c.enabled {
                    Some(false) => true,
                    _ => false,
                };
                if disable {
                    match txn.set_enabled(c.uuid.as_str(), false) {
                        Ok(_) => {},
                        Err(e) => {
                            proof {
                                assert(false);
                            }
                            return Err(Error::Displays(e));
                        },
                    }
                    proof {
                        assert(edit_views(txn.edits@) =~= goal);
                    }
                } else {
                    match txn.set_mirroring(c.uuid.as_str(), None) {
                        Ok(_) => {},
                        Err(e) => {
                            proof {
                                assert(false);
                            }
                            return Err(Error::Displays(e));
                        },
                    }
                    let ghost p_clear = plan0 + seq![
                        (c_spec.uuid@, EditView::SetMirroring(None::<Seq<char>>)),
                    ];
                    proof {
                        assert(edit_views(txn.edits@) =~= p_clear);
                    }
                    match c.rotation {
                        Some(rot) => {
                            proof {
                                // The only edit queued so far for this
                                // record's display is the mirroring reset,
                                // so no rotation is queued for it.
                                assert(!crate::fake_displays::has_rotation_edit(
                                    txn.edits@,
                                    c_spec.uuid@,
                                )) by {
                                    if crate::fake_displays::has_rotation_edit(
                                        txn.edits@,
                                        c_spec.uuid@,
                                    ) {
                                        let j = choose|j: int|
                                            0 <= j < txn.edits@.len()
                                                && (#[trigger] txn.edits@[j]).0@ == c_spec.uuid@
                                                && txn.edits@[j].1 is SetRotation;
                                        assert(edit_views(txn.edits@)[j].0 == txn.edits@[j].0@);
                                        assert(edit_views(txn.edits@)[j].1 == txn.edits@[j].1@);
                                        if j < plan0.len() {
                                            assert(edit_views(txn.edits@)[j] == plan0[j]);
                                        } else {
                                            assert(edit_views(txn.edits@)[j].1
                                                == EditView::SetMirroring(None::<Seq<char>>));
                                        }
                                    }
                                }
                            }
                            match txn.set_rotation(c.uuid.as_str(), rot) {
                                Ok(_) => {},
                                Err(e) => {
                                    proof {
                                        assert(false);
                                    }
                                    return Err(Error::Displays(e));
                                },
                            }
                            proof {
                                assert(edit_views(txn.edits@) =~= p_clear + opt_rotation_edit(
                                    c_spec,
                                ));
                            }
                        },
                        None => {
                            proof {
                                assert(edit_views(txn.edits@) =~= p_clear + opt_rotation_edit(
                                    c_spec,
                                ));
                            }
                        },
                    }
                    let ghost p_rot = p_clear + opt_rotation_edit(c_spec);
                    match c.brightness {
                        Some(b) => {
                            proof {
                                assert(c_spec.brightness_in_range());
                            }
                            match txn.set_brightness(c.uuid.as_str(), b) {
                                Ok(_) => {},
                                Err(e) => {
                                    proof {
                                        assert(false);
                                    }
                                    return Err(Error::Displays(e));
                                },
                            }
                            proof {
                                assert(edit_views(txn.edits@) =~= p_rot + opt_brightness_edit(
                                    c_spec,
                                ));
                            }
                        },
                        None => {
                            proof {
                                assert(edit_views(txn.edits@) =~= p_rot + opt_brightness_edit(
                                    c_spec,
                                ));
                            }
                        },
                    }
                    let ghost p_bright = p_rot + opt_brightness_edit(c_spec);
                    let m = match &selected[i] {
                        Some(m) => m,
                        None => {
                            proof {
                                assert(false);
                            }
                            return Err(Error::NoConfigGroups);
                        },
                    };
                    match txn.set_mode(c.uuid.as_str(), m) {
                        Ok(_) => {},
                        Err(e) => {
                            proof {
                                assert(false);
                            }
                            return Err(Error::Displays(e));
                        },
                    }
                    let ghost p_mode = p_bright + seq![
                        (c_spec.uuid@, EditView::SetMode(chosen_mode(ds, c_spec))),
                    ];
                    proof {
                        assert(edit_views(txn.edits@) =~= p_mode);
                    }
                    match &c.origin {
                        Some(p) => {
                            match txn.set_origin(c.uuid.as_str(), p) {
                                Ok(_) => {},
                                Err(e) => {
                                    proof {
                                        assert(false);
                                    }
                                    return Err(Error::Displays(e));
                                },
                            }
                            proof {
                                assert(edit_views(txn.edits@) =~= p_mode + opt_origin_edit(
                                    c_spec,
                                ));
                            }
                        },
                        None => {
                            proof {
                                assert(edit_views(txn.edits@) =~= p_mode + opt_origin_edit(
                                    c_spec,
                                ));
                            }
                        },
                    }
                    proof {
                        assert(edit_views(txn.edits@) =~= goal);
                    }
                }
            },
        }
        proof {
            lemma_plan_step(ds, config_group.configs@, i as int);
            assert(edit_views(txn.edits@) == goal);
            // Newly queued edits all address this record's display, which is
            // attached and distinct from the displays of later records.
            // Newly queued edits all address this record's display, which is
            // attached and distinct from the displays of later records.
            assert forall|j: int|
                0 <= j < edit_views(txn.edits@).len() implies state_has_uuid(
                ds,
                (#[trigger] edit_views(txn.edits@)[j]).0,
            ) by {
                if j >= plan0.len() {
                    assert(config_edits(c_spec, chosen_mode(ds, c_spec))[j - plan0.len()].0
                        == c_spec.uuid@);
                    assert(edit_views(txn.edits@)[j].0 == c_spec.uuid@);
                } else {
                    assert(edit_views(txn.edits@)[j] == plan0[j]);
                }
            }
            assert forall|j: int, i2: int|
                0 <= j < edit_views(txn.edits@).len() && i + 1 <= i2 < n implies (
            #[trigger] edit_views(txn.edits@)[j]).0 != (
            #[trigger] config_group.configs@[i2]).uuid@ by {
                if j >= plan0.len() {
                    assert(config_edits(c_spec, chosen_mode(ds, c_spec))[j - plan0.len()].0
                        == c_spec.uuid@);
                    assert(edit_views(txn.edits@)[j].0 == c_spec.uuid@);
                    // Distinct records name distinct displays.
                    assert(config_group.configs@[i as int].uuid@
                        != config_group.configs@[i2].uuid@);
                } else {
                    assert(edit_views(txn.edits@)[j] == plan0[j]);
                }
            }
        }
        i = i + 1;
    }
    proof {
        assert(config_group.configs@.take(n as int) =~= config_group.configs@);
    }
    proof {
        assert forall|j: int|
            0 <= j < txn.edits@.len() implies state_has_uuid(
            state@,
            (#[trigger] txn.edits@[j]).0@,
        ) by {
            assert(edit_views(txn.edits@)[j].0 == txn.edits@[j].0@);
        }
    }
    match txn.commit(state) {
        Ok(_) => {
            proof {
                assert(final(state)@ == apply_edits(ds, group_plan(ds, config_group.configs@)));
            }
            Ok(())
        },
        Err(e) => {
            proof {
                assert(false);
            }
            Err(Error::Displays(e))
        },
    }
}

/// Whether a configuration record reports exactly the state of a display:
/// a mirroring display is reported by its UUID and mirror target alone;
/// any other display is reported in full.
pub open spec fn config_matches_display(c: Config, d: DisplayView) -> bool {
    &&& c.uuid@ == d.uuid
    &&& match d.mirror_of {
        Some(t) => {
            &&& c.mirror_of matches Some(mt) && mt@ == t
            &&& c.enabled is None
            &&& c.origin is None
            &&& c.extents is None
            &&& c.scaled is None
            &&& c.frequency is None
            &&& c.color_depth is None
            &&& c.rotation is None
            &&& c.brightness is None
        },
        None => {
            &&& c.mirror_of is None
            &&& c.enabled == Some(d.enabled)
            &&& c.origin == Some(d.origin)
            &&& c.extents == Some(d.mode.extents)
            &&& c.scaled == Some(d.mode.scaled)
            &&& c.frequency == Some(d.mode.frequency)
            &&& c.color_depth == Some(d.mode.color_depth)
            &&& c.rotation == Some(d.rotation)
            &&& c.brightness == d.brightness
        },
    }
}

/// Convert a display state into configuration groups: one group holding one
/// record per attached display.
pub fn state_to_config(display_state: &FakeDisplayState) -> (r: ConfigGroups)
    ensures
        r.groups@.len() == 1,
        r.groups@[0].configs@.len() == display_state@.len(),
        forall|k: int|
            0 <= k < display_state@.len() ==> config_matches_display(
                #[trigger] r.groups@[0].configs@[k],
                display_state@[k],
            ),
{
    let mut configs: Vec<Config> = Vec::new();
    let mut k: usize = 0;
    while k < display_state.displays.len()
        invariant
            k <= display_state.displays@.len(),
            configs@.len() == k,
            forall|k2: int|
                0 <= k2 < k ==> config_matches_display(
                    #[trigger] configs@[k2],
                    display_state@[k2],
                ),
        decreases display_state.displays@.len() - k,
    {
        let d = &display_state.displays[k];
        let config = match &d.mirror_of {
            Some(target) => Config {
                uuid: d.uuid.clone(),
                mirror_of: Some(target.clone()),
                enabled: None,
                origin: None,
                extents: None,
                scaled: None,
                frequency: None,
                color_depth: None,
                rotation: None,
                brightness: None,
            },
            None => Config {
                uuid: d.uuid.clone(),
                mirror_of: None,
                enabled: Some(d.enabled),
                origin: Some(d.origin),
                extents: Some(d.mode.extents),
                scaled: Some(d.mode.scaled),
                frequency: Some(d.mode.frequency),
                color_depth: Some(d.mode.color_depth),
                rotation: Some(d.rotation),
                brightness: d.brightness,
            },
        };
        configs.push(config);
        k = k + 1;
    }
    let group = ConfigGroup { configs };
    let mut groups: Vec<ConfigGroup> = Vec::new();
    groups.push(group);
    ConfigGroups { groups }
}

/// One-shot pipeline step: with no configuration groups the displays are
/// left untouched; otherwise the most precise feasible group is resolved
/// and applied through a transaction.
pub fn pipeline_apply(config_groups: &Vec<ValidConfigGroup>, state: &mut FakeDisplayState) -> (r:
    Result<(), Error>)
    requires
        old(state).wf(),
        modes_belong(old(state)@),
        forall|k: int| 0 <= k < config_groups@.len() ==> (#[trigger] config_groups@[k]).wf(),
    ensures
        config_groups@.len() == 0 ==> r is Ok && final(state)@ == old(state)@,
        r is Err ==> final(state)@ == old(state)@,
        config_groups@.len() > 0 ==> {
            let w = winning_groups(config_groups@, old(state)@);
            &&& (r is Ok <==> w.len() == 1 && mode_selection_ok(old(state)@, w[0].configs@))
            &&& (r is Ok ==> final(state)@ == apply_edits(
                old(state)@,
                group_plan(old(state)@, w[0].configs@),
            ))
        },
{
    if config_groups.len() == 0 {
        return Ok(());
    }
    let chosen = match find_most_precise_config_group(config_groups, state) {
        Ok(g) => g,
        Err(e) => {
            return Err(e);
        },
    };
    proof {
        let i = choose|i: int|
            0 <= i < config_groups@.len() && chosen.uuids@ == (
            #[trigger] config_groups@[i]).uuids@ && chosen.configs@ == config_groups@[i].configs@;
        assert(config_groups@[i].wf());
        assert(chosen.wf());
    }
    match configure_displays(state, &chosen) {
        Ok(_) => Ok(()),
        Err(e) => Err(e),
    }
}

/// One reconfiguration attempt in daemon mode: like the pipeline step, but
/// an empty set of configuration groups is an error, as the daemon would
/// have nothing to apply, ever.
pub fn daemon_reconfigure(config_groups: &Vec<ValidConfigGroup>, state: &mut FakeDisplayState) -> (
    r: Result<(), Error>)
    requires
        old(state).wf(),
        modes_belong(old(state)@),
        forall|k: int| 0 <= k < config_groups@.len() ==> (#[trigger] config_groups@[k]).wf(),
    ensures
        config_groups@.len() == 0 ==> (r matches Err(Error::NoConfigGroups) && final(state)@
            == old(state)@),
        r is Err ==> final(state)@ == old(state)@,
        config_groups@.len() > 0 ==> {
            let w = winning_groups(config_groups@, old(state)@);
            &&& (r is Ok <==> w.len() == 1 && mode_selection_ok(old(state)@, w[0].configs@))
            &&& (r is Ok ==> final(state)@ == apply_edits(
                old(state)@,
                group_plan(old(state)@, w[0].configs@),
            ))
        },
{
    if config_groups.len() == 0 {
        return Err(Error::NoConfigGroups);
    }
    pipeline_apply(config_groups, state)
}

/// The observable phase of the reconfiguration coordinator.
#[derive(Clone, Copy, Debug, PartialEq, Eq, Structural)]
pub enum CoordinatorPhase {
    /// No reconfiguration is requested or running.
    Waiting,
    /// A reconfiguration has been requested but has not started.
    Triggered,
    /// A reconfiguration is running; notifications are dropped.
    Working,
}

/// The event-coordination state used in daemon mode: a "reconfiguration
/// requested" flag, coalescing notifications that arrive while a pass is in
/// flight, and a count of completed passes.
#[derive(Clone, Copy, Debug, PartialEq, Eq, Structural)]
pub struct ReconfigureCoordinator {
    /// Where the coordinator stands.
    pub phase: CoordinatorPhase,
    /// How many reconfiguration passes have completed.
    pub completed: u64,
}

/// The coordinator state after a hardware-change notification, and whether
/// the notification was accepted: a notification during a running pass is
/// dropped, not queued.
pub open spec fn spec_notify(s: ReconfigureCoordinator) -> (ReconfigureCoordinator, bool) {
    match s.phase {
        CoordinatorPhase::Waiting => (
            ReconfigureCoordinator { phase: CoordinatorPhase::Triggered, ..s },
            true,
        ),
        CoordinatorPhase::Triggered => (s, true),
        CoordinatorPhase::Working => (s, false),
    }
}

impl ReconfigureCoordinator {
    /// A fresh coordinator: nothing requested, nothing completed.
    pub fn new() -> (r: Self)
        ensures
            r.phase is Waiting,
            r.completed == 0,
    {
        ReconfigureCoordinator { phase: CoordinatorPhase::Waiting, completed: 0 }
    }

    /// Record a hardware-change notification.  Returns whether the
    /// notification was accepted; one arriving while a pass is running is
    /// dropped by design.
    pub fn notify(&mut self) -> (accepted: bool)
        ensures
            (*final(self), accepted) == spec_notify(*old(self)),
    {
        match self.phase {
            CoordinatorPhase::Waiting => {
                self.phase = CoordinatorPhase::Triggered;
                true
            },
            CoordinatorPhase::Triggered => true,
            CoordinatorPhase::Working => false,
        }
    }

    /// Start a reconfiguration pass for the pending request.
    pub fn begin_pass(&mut self)
        requires
            old(self).phase is Triggered,
        ensures
            final(self).phase is Working,
            final(self).completed == old(self).completed,
    {
        self.phase = CoordinatorPhase::Working;
    }

    /// Finish the running reconfiguration pass: the request is consumed and
    /// the completion count grows by one, whether the pass succeeded or
    /// failed.
    pub fn finish_pass(&mut self)
        requires
            old(self).phase is Working,
            old(self).completed < u64::MAX,
        ensures
            final(self).phase is Waiting,
            final(self).completed == old(self).completed + 1,
    {
        self.phase = CoordinatorPhase::Waiting;
        self.completed = self.completed + 1;
    }
}

/// Bursts of notifications collapse to a single request: after one
/// accepted notification, further notifications change nothing; and a
/// notification that arrives while a pass is running is dropped outright.
pub proof fn lemma_notifications_coalesce(s: ReconfigureCoordinator)
    ensures
        spec_notify(spec_notify(s).0).0 == spec_notify(s).0,
        s.phase is Working ==> spec_notify(s) == (s, false),
        spec_notify(s).0.completed == s.completed,
{
}

/// The value of one display after its configuration record is applied, per
/// the ordering policy: a mirroring record only sets the mirror target and
/// honors an explicit disable; a disabling record only disables; any other
/// record clears mirroring and applies the requested rotation, brightness,
/// the selected mode and origin, leaving unrequested options unchanged.
pub open spec fn configured_display(d: DisplayView, c: Config, m: ModeView) -> DisplayView {
    if c.mirror_of is Some {
        let d1 = DisplayView { mirror_of: Some(c.mirror_of.unwrap()@), ..d };
        if c.enabled == Some(false) {
            DisplayView { enabled: false, ..d1 }
        } else {
            d1
        }
    } else if c.enabled == Some(false) {
        DisplayView { enabled: false, ..d }
    } else {
        DisplayView {
            mirror_of: None,
            rotation: match c.rotation {
                Some(r) => r,
                None => d.rotation,
            },
            brightness: match c.brightness {
                Some(b) => Some(b),
                None => d.brightness,
            },
            mode: m,
            origin: match c.origin {
                Some(p) => p,
                None => d.origin,
            },
            ..d
        }
    }
}

/// What a display looks like after a whole group is applied: the record
/// naming it decides its new value; a display no record names is untouched.
pub open spec fn display_outcome(ds: Seq<DisplayView>, configs: Seq<Config>, k: int) -> DisplayView {
    if exists|i: int| 0 <= i < configs.len() && (#[trigger] configs[i]).uuid@ == ds[k].uuid {
        let i = choose|i: int|
            0 <= i < configs.len() && (#[trigger] configs[i]).uuid@ == ds[k].uuid;
        configured_display(ds[k], configs[i], chosen_mode(ds, configs[i]))
    } else {
        ds[k]
    }
}

/// Applying edits in sequence composes.
proof fn lemma_apply_edits_append(
    ds: Seq<DisplayView>,
    a: Seq<(Seq<char>, EditView)>,
    b: Seq<(Seq<char>, EditView)>,
)
    ensures
        apply_edits(ds, a + b) == apply_edits(apply_edits(ds, a), b),
    decreases b.len(),
{
    if b.len() == 0 {
        assert(a + b =~= a);
    } else {
        lemma_apply_edits_append(ds, a, b.drop_last());
        assert((a + b).drop_last() =~= a + b.drop_last());
        assert((a + b).last() == b.last());
    }
}

/// Applying one record's edits configures exactly the display the record
/// names, per the ordering policy, and leaves every other display alone.
proof fn lemma_apply_config_edits(gs: Seq<DisplayView>, c: Config, m: ModeView)
    ensures
        apply_edits(gs, config_edits(c, m)).len() == gs.len(),
        forall|k: int|
            0 <= k < gs.len() ==> #[trigger] apply_edits(gs, config_edits(c, m))[k] == (if gs[k].uuid
                == c.uuid@ {
                configured_display(gs[k], c, m)
            } else {
                gs[k]
            }),
{
    let u = c.uuid@;
    let empty = Seq::<(Seq<char>, EditView)>::empty();
    assert(apply_edits(gs, empty) == gs);
    if c.mirror_of is Some {
        let e0 = (u, EditView::SetMirroring(Some(c.mirror_of.unwrap()@)));
        let h1 = apply_edits(gs, seq![e0]);
        assert(seq![e0].drop_last() =~= empty);
        assert(seq![e0].last() == e0);
        assert(h1 == apply_edit_to_displays(gs, e0));
        if c.enabled == Some(false) {
            let e1 = (u, EditView::SetEnabled(false));
            assert(config_edits(c, m) =~= seq![e0, e1]);
            let h2 = apply_edits(gs, seq![e0, e1]);
            assert(seq![e0, e1].drop_last() =~= seq![e0]);
            assert(seq![e0, e1].last() == e1);
            assert(h2 == apply_edit_to_displays(h1, e1));
            assert forall|k: int| 0 <= k < gs.len() implies #[trigger] apply_edits(
                gs,
                config_edits(c, m),
            )[k] == (if gs[k].uuid == c.uuid@ {
                configured_display(gs[k], c, m)
            } else {
                gs[k]
            }) by {
                assert(h1[k] == (if gs[k].uuid == u {
                    apply_edit_view(gs[k], e0.1)
                } else {
                    gs[k]
                }));
                assert(h1[k].uuid == gs[k].uuid);
                assert(h2[k] == (if h1[k].uuid == u {
                    apply_edit_view(h1[k], e1.1)
                } else {
                    h1[k]
                }));
            }
        } else {
            assert(config_edits(c, m) =~= seq![e0]);
            assert forall|k: int| 0 <= k < gs.len() implies #[trigger] apply_edits(
                gs,
                config_edits(c, m),
            )[k] == (if gs[k].uuid == c.uuid@ {
                configured_display(gs[k], c, m)
            } else {
                gs[k]
            }) by {
                assert(h1[k] == (if gs[k].uuid == u {
                    apply_edit_view(gs[k], e0.1)
                } else {
                    gs[k]
                }));
            }
        }
    } else if c.enabled == Some(false) {
        let e0 = (u, EditView::SetEnabled(false));
        assert(config_edits(c, m) =~= seq![e0]);
        let h1 = apply_edits(gs, seq![e0]);
        assert(seq![e0].drop_last() =~= empty);
        assert(seq![e0].last() == e0);
        assert(h1 == apply_edit_to_displays(gs, e0));
        assert forall|k: int| 0 <= k < gs.len() implies #[trigger] apply_edits(
            gs,
            config_edits(c, m),
        )[k] == (if gs[k].uuid == c.uuid@ {
            configured_display(gs[k], c, m)
        } else {
            gs[k]
        }) by {
            assert(h1[k] == (if gs[k].uuid == u {
                apply_edit_view(gs[k], e0.1)
            } else {
                gs[k]
            }));
        }
    } else {
        let e_clear = (u, EditView::SetMirroring(None::<Seq<char>>));
        let e_mode = (u, EditView::SetMode(m));
        let s_clear = seq![e_clear];
        let s_rot = s_clear + opt_rotation_edit(c);
        let s_bright = s_rot + opt_brightness_edit(c);
        let s_mode = s_bright + seq![e_mode];
        let s_all = s_mode + opt_origin_edit(c);
        assert(config_edits(c, m) == s_all);
        lemma_apply_edits_append(gs, s_mode, opt_origin_edit(c));
        lemma_apply_edits_append(gs, s_bright, seq![e_mode]);
        lemma_apply_edits_append(gs, s_rot, opt_brightness_edit(c));
        lemma_apply_edits_append(gs, s_clear, opt_rotation_edit(c));
        let g1 = apply_edits(gs, s_clear);
        assert(s_clear.drop_last() =~= empty);
        assert(s_clear.last() == e_clear);
        assert(g1 == apply_edit_to_displays(gs, e_clear));
        let g2 = apply_edits(gs, s_rot);
        assert(g2 == apply_edits(g1, opt_rotation_edit(c)));
        proof_opt_single(g1, opt_rotation_edit(c));
        let g3 = apply_edits(gs, s_bright);
        assert(g3 == apply_edits(g2, opt_brightness_edit(c)));
        proof_opt_single(g2, opt_brightness_edit(c));
        let g4 = apply_edits(gs, s_mode);
        assert(seq![e_mode].drop_last() =~= empty);
        assert(seq![e_mode].last() == e_mode);
        assert(apply_edits(g3, seq![e_mode]) == apply_edit_to_displays(
            apply_edits(g3, empty),
            e_mode,
        ));
        assert(g4 == apply_edit_to_displays(g3, e_mode));
        let g5 = apply_edits(gs, s_all);
        assert(g5 == apply_edits(g4, opt_origin_edit(c)));
        proof_opt_single(g4, opt_origin_edit(c));
        assert forall|k: int| 0 <= k < gs.len() implies #[trigger] apply_edits(
            gs,
            config_edits(c, m),
        )[k] == (if gs[k].uuid == c.uuid@ {
            configured_display(gs[k], c, m)
        } else {
            gs[k]
        }) by {
            assert(g1[k] == (if gs[k].uuid == u {
                apply_edit_view(gs[k], e_clear.1)
            } else {
                gs[k]
            }));
            assert(g1[k].uuid == gs[k].uuid);
            match c.rotation {
                Some(r) => {
                    assert(g2 == apply_edit_to_displays(g1, (u, EditView::SetRotation(r))));
                    assert(g2[k] == (if g1[k].uuid == u {
                        apply_edit_view(g1[k], EditView::SetRotation(r))
                    } else {
                        g1[k]
                    }));
                },
                None => {
                    assert(g2 == g1);
                },
            }
            assert(g2[k].uuid == gs[k].uuid);
            match c.brightness {
                Some(b) => {
                    assert(g3 == apply_edit_to_displays(g2, (u, EditView::SetBrightness(b))));
                    assert(g3[k] == (if g2[k].uuid == u {
                        apply_edit_view(g2[k], EditView::SetBrightness(b))
                    } else {
                        g2[k]
                    }));
                },
                None => {
                    assert(g3 == g2);
                },
            }
            assert(g3[k].uuid == gs[k].uuid);
            assert(g4[k] == (if g3[k].uuid == u {
                apply_edit_view(g3[k], e_mode.1)
            } else {
                g3[k]
            }));
            assert(g4[k].uuid == gs[k].uuid);
            match c.origin {
                Some(p) => {
                    assert(g5 == apply_edit_to_displays(g4, (u, EditView::SetOrigin(p))));
                    assert(g5[k] == (if g4[k].uuid == u {
                        apply_edit_view(g4[k], EditView::SetOrigin(p))
                    } else {
                        g4[k]
                    }));
                },
                None => {
                    assert(g5 == g4);
                },
            }
        }
    }
}

/// Applying an optional single edit is one conditional pass over the
/// displays.
proof fn proof_opt_single(gs: Seq<DisplayView>, es: Seq<(Seq<char>, EditView)>)
    requires
        es.len() <= 1,
    ensures
        es.len() == 0 ==> apply_edits(gs, es) == gs,
        es.len() == 1 ==> apply_edits(gs, es) == apply_edit_to_displays(gs, es[0]),
{
    if es.len() == 1 {
        assert(apply_edits(gs, Seq::<(Seq<char>, EditView)>::empty()) == gs);
        assert(es.drop_last() =~= Seq::<(Seq<char>, EditView)>::empty());
        assert(es.last() == es[0]);
    }
}

/// The apply step, display by display: applying a group's edit plan
/// configures exactly the displays the group names, each per the ordering
/// policy, and leaves every other display untouched.
pub proof fn lemma_group_plan_effect(ds: Seq<DisplayView>, configs: Seq<Config>)
    requires
        forall|k1: int, k2: int|
            0 <= k1 < k2 < ds.len() ==> (#[trigger] ds[k1]).uuid != (#[trigger] ds[k2]).uuid,
        !crate::valid_config::has_duplicate_uuids(configs),
    ensures
        apply_edits(ds, group_plan(ds, configs)).len() == ds.len(),
        forall|k: int|
            0 <= k < ds.len() ==> #[trigger] apply_edits(ds, group_plan(ds, configs))[k]
                == display_outcome(ds, configs, k),
    decreases configs.len(),
{
    if configs.len() == 0 {
        assert forall|k: int| 0 <= k < ds.len() implies #[trigger] apply_edits(
            ds,
            group_plan(ds, configs),
        )[k] == display_outcome(ds, configs, k) by {
            assert(!(exists|i: int|
                0 <= i < configs.len() && (#[trigger] configs[i]).uuid@ == ds[k].uuid));
        }
    } else {
        let cs = configs.drop_last();
        let c = configs.last();
        let m = chosen_mode(ds, c);
        assert(!crate::valid_config::has_duplicate_uuids(cs)) by {
            if crate::valid_config::has_duplicate_uuids(cs) {
                let (a, b) = choose|a: int, b: int|
                    0 <= a < b < cs.len() && cs[a].uuid@ == cs[b].uuid@;
                assert(configs[a].uuid@ == configs[b].uuid@);
            }
        }
        lemma_group_plan_effect(ds, cs);
        let fs1 = apply_edits(ds, group_plan(ds, cs));
        lemma_apply_edits_append(ds, group_plan(ds, cs), config_edits(c, m));
        lemma_apply_config_edits(fs1, c, m);
        assert forall|k: int| 0 <= k < ds.len() implies #[trigger] apply_edits(
            ds,
            group_plan(ds, configs),
        )[k] == display_outcome(ds, configs, k) by {
            let out = apply_edits(ds, group_plan(ds, configs));
            assert(out[k] == (if fs1[k].uuid == c.uuid@ {
                configured_display(fs1[k], c, m)
            } else {
                fs1[k]
            }));
            assert(fs1[k] == display_outcome(ds, cs, k));
            if exists|i: int| 0 <= i < cs.len() && (#[trigger] cs[i]).uuid@ == ds[k].uuid {
                // Some earlier record named this display; the last record
                // cannot (no duplicate UUIDs), so the display keeps the
                // value that record gave it.
                let i = choose|i: int|
                    0 <= i < cs.len() && (#[trigger] cs[i]).uuid@ == ds[k].uuid;
                assert(configs[i].uuid@ == ds[k].uuid);
                assert(fs1[k] == configured_display(ds[k], cs[i], chosen_mode(ds, cs[i])));
                assert(fs1[k].uuid == ds[k].uuid);
                assert(c.uuid@ != ds[k].uuid) by {
                    if c.uuid@ == ds[k].uuid {
                        assert(configs[i].uuid@ == configs[configs.len() - 1].uuid@);
                        assert(crate::valid_config::has_duplicate_uuids(configs));
                    }
                }
                assert(out[k] == fs1[k]);
                // The witness for the whole group is the same record.
                let i2 = choose|i2: int|
                    0 <= i2 < configs.len() && (#[trigger] configs[i2]).uuid@ == ds[k].uuid;
                assert(i2 < cs.len()) by {
                    if i2 == configs.len() - 1 {
                        assert(c.uuid@ == ds[k].uuid);
                    }
                }
                assert(cs[i2].uuid@ == ds[k].uuid);
                assert(i2 == i) by {
                    if i2 != i {
                        assert(crate::valid_config::has_duplicate_uuids(configs));
                    }
                }
                assert(configured_display(ds[k], configs[i2], chosen_mode(ds, configs[i2]))
                    == fs1[k]);
                assert(display_outcome(ds, configs, k) == fs1[k]);
            } else {
                assert(fs1[k] == ds[k]);
                if c.uuid@ == ds[k].uuid {
                    // Only the last record names this display.
                    assert(out[k] == configured_display(ds[k], c, m));
                    assert(exists|i2: int|
                        0 <= i2 < configs.len() && (#[trigger] configs[i2]).uuid@ == ds[k].uuid);
                    let i2 = choose|i2: int|
                        0 <= i2 < configs.len() && (#[trigger] configs[i2]).uuid@ == ds[k].uuid;
                    assert(i2 == configs.len() - 1) by {
                        if i2 < configs.len() - 1 {
                            assert(cs[i2].uuid@ == ds[k].uuid);
                        }
                    }
                    assert(display_outcome(ds, configs, k) == configured_display(
                        ds[k],
                        c,
                        chosen_mode(ds, c),
                    ));
                } else {
                    assert(out[k] == ds[k]);
                    assert(!(exists|i2: int|
                        0 <= i2 < configs.len() && (#[trigger] configs[i2]).uuid@
                            == ds[k].uuid)) by {
                        if exists|i2: int|
                            0 <= i2 < configs.len() && (#[trigger] configs[i2]).uuid@
                                == ds[k].uuid {
                            let i2 = choose|i2: int|
                                0 <= i2 < configs.len() && (#[trigger] configs[i2]).uuid@
                                    == ds[k].uuid;
                            if i2 < configs.len() - 1 {
                                assert(cs[i2].uuid@ == ds[k].uuid);
                            } else {
                                assert(c.uuid@ == ds[k].uuid);
                            }
                        }
                    }
                }
            }
        }
    }
}

/// Corollary for a successful apply: after `configure_displays` succeeds on
/// a well-formed state and group, each display the group names holds
/// exactly the value its record dictates, and every other display is
/// untouched.
pub proof fn lemma_configure_outcome(
    ds: Seq<DisplayView>,
    configs: Seq<Config>,
    fs: Seq<DisplayView>,
    r: Result<(), Error>,
)
    requires
        configure_post(ds, configs, fs, r),
        r is Ok,
        forall|k1: int, k2: int|
            0 <= k1 < k2 < ds.len() ==> (#[trigger] ds[k1]).uuid != (#[trigger] ds[k2]).uuid,
        !crate::valid_config::has_duplicate_uuids(configs),
    ensures
        fs.len() == ds.len(),
        forall|k: int| 0 <= k < ds.len() ==> #[trigger] fs[k] == display_outcome(ds, configs, k),
{
    lemma_group_plan_effect(ds, configs);
}

} // verus!
