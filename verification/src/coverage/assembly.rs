//! How a network is assembled from the raw regions: the rules, step by step,
//! and the sorted insertion that keeps the network's lists ordered.
use crate::coverage::fir::{fir_problem, fir_view_of, FirView, FlightInformationRegionRaw};
use crate::coverage::network::{has_position, positions_sorted, stations_sorted};
use crate::coverage::position::{position_problem, position_view_of, Position, PositionRaw, PositionRawView, PositionView};
use crate::coverage::station::{concat_all, raw_views, resolved_coverage, Station, StationRawView, StationView};
use crate::coverage::{validation_message, CoverageErrorView, StructureErrorView, ValidationErrorView};
use crate::text::{lemma_seq_lt_irreflexive, lemma_seq_lt_total, lemma_seq_lt_transitive, seq_lt, str_lt};
use vstd::prelude::*;

verus! {

/// What assembling a network has produced so far.
pub struct BuildState {
    pub fir_ids: Seq<Seq<char>>,
    pub firs: Seq<FirView>,
    pub stations: Seq<StationView>,
    pub positions: Seq<PositionView>,
    pub errors: Seq<CoverageErrorView>,
}

/// Nothing assembled yet.
pub open spec fn empty_build() -> BuildState {
    BuildState {
        fir_ids: Seq::empty(),
        firs: Seq::empty(),
        stations: Seq::empty(),
        positions: Seq::empty(),
        errors: Seq::empty(),
    }
}

/// The error reported when an entity fails its own checks.
pub open spec fn load_error(entity: Seq<char>, id: Seq<char>, e: ValidationErrorView) -> CoverageErrorView {
    CoverageErrorView::Structure(
        StructureErrorView::Load { entity, id, reason: validation_message(e) },
    )
}

/// The error reported when an identifier is used a second time.
pub open spec fn duplicate_error(entity: Seq<char>, id: Seq<char>) -> CoverageErrorView {
    CoverageErrorView::Structure(StructureErrorView::Duplicate { entity, id })
}

/// Whether some station in `ss` has the identifier `id`.
pub open spec fn has_station(ss: Seq<StationView>, id: Seq<char>) -> bool {
    exists|i: int| 0 <= i < ss.len() && ss[i].id == id
}

/// The state after one raw station of the region `fir`: a second station
/// with a known identifier, a station without identifier, and a station that
/// no position covers are errors; any other station is added with its
/// resolved coverage.
pub open spec fn station_step(
    st: BuildState,
    sr: StationRawView,
    fir: Seq<char>,
    all: Seq<StationRawView>,
) -> BuildState {
    if has_station(st.stations, sr.id) {
        BuildState { errors: st.errors.push(duplicate_error("Station"@, sr.id)), ..st }
    } else if sr.id.len() == 0 {
        BuildState {
            errors: st.errors.push(load_error("Station"@, sr.id, ValidationErrorView::Empty { field: "id"@ })),
            ..st
        }
    } else if resolved_coverage(sr, all).len() == 0 {
        BuildState {
            errors: st.errors.push(CoverageErrorView::Structure(StructureErrorView::EmptyCoverage(sr.id))),
            ..st
        }
    } else {
        BuildState {
            stations: st.stations.push(
                StationView {
                    id: sr.id,
                    parent_id: sr.parent_id,
                    controlled_by: resolved_coverage(sr, all),
                    fir_id: fir,
                },
            ),
            ..st
        }
    }
}

/// The state after the raw stations `srs`, in order.
pub open spec fn stations_fold(
    st: BuildState,
    srs: Seq<StationRawView>,
    fir: Seq<char>,
    all: Seq<StationRawView>,
) -> BuildState
    decreases srs.len(),
{
    if srs.len() == 0 {
        st
    } else {
        station_step(stations_fold(st, srs.drop_last(), fir, all), srs.last(), fir, all)
    }
}

/// The state after one raw position of the region `fir`: a position that
/// fails its checks or repeats a known identifier is an error; any other is
/// added.
pub open spec fn position_step(st: BuildState, pr: PositionRawView, fir: Seq<char>) -> BuildState {
    match position_problem(pr) {
        Some(e) => BuildState { errors: st.errors.push(load_error("Position"@, pr.id, e)), ..st },
        None => if has_position(st.positions, pr.id) {
            BuildState { errors: st.errors.push(duplicate_error("Position"@, pr.id)), ..st }
        } else {
            BuildState { positions: st.positions.push(position_view_of(pr, fir)), ..st }
        },
    }
}

/// The state after the raw positions `prs`, in order.
pub open spec fn positions_fold(st: BuildState, prs: Seq<PositionRawView>, fir: Seq<char>) -> BuildState
    decreases prs.len(),
{
    if prs.len() == 0 {
        st
    } else {
        position_step(positions_fold(st, prs.drop_last(), fir), prs.last(), fir)
    }
}

/// Taking stations records no region.
pub proof fn lemma_stations_fold_keeps_firs(
    st: BuildState,
    srs: Seq<StationRawView>,
    fir: Seq<char>,
    all: Seq<StationRawView>,
)
    ensures
        stations_fold(st, srs, fir, all).fir_ids == st.fir_ids,
        stations_fold(st, srs, fir, all).firs == st.firs,
    decreases srs.len(),
{
    if srs.len() > 0 {
        lemma_stations_fold_keeps_firs(st, srs.drop_last(), fir, all);
    }
}

/// Taking positions records no region.
pub proof fn lemma_positions_fold_keeps_firs(st: BuildState, prs: Seq<PositionRawView>, fir: Seq<char>)
    ensures
        positions_fold(st, prs, fir).fir_ids == st.fir_ids,
        positions_fold(st, prs, fir).firs == st.firs,
    decreases prs.len(),
{
    if prs.len() > 0 {
        lemma_positions_fold_keeps_firs(st, prs.drop_last(), fir);
    }
}

/// The contents of a list of raw positions.
pub open spec fn raw_position_views(v: Seq<PositionRaw>) -> Seq<PositionRawView> {
    v.map_values(|p: PositionRaw| p@)
}

/// The state after one raw region: a region that fails its checks or repeats
/// a known identifier is an error and contributes nothing else; any other is
/// recorded, then its stations and then its positions are taken in order.
pub open spec fn fir_step(
    st: BuildState,
    fr: FlightInformationRegionRaw,
    all: Seq<StationRawView>,
) -> BuildState {
    match fir_problem(fr) {
        Some(e) => BuildState { errors: st.errors.push(load_error("FIR"@, fr.id@, e)), ..st },
        None => if st.fir_ids.contains(fr.id@) {
            BuildState { errors: st.errors.push(duplicate_error("FIR"@, fr.id@)), ..st }
        } else {
            positions_fold(
                stations_fold(
                    BuildState { fir_ids: st.fir_ids.push(fr.id@), firs: st.firs.push(fir_view_of(fr)), ..st },
                    raw_views(fr.stations@),
                    fr.id@,
                    all,
                ),
                raw_position_views(fr.positions@),
                fr.id@,
            )
        },
    }
}

/// The state after the raw regions `frs`, in order.
pub open spec fn firs_fold(frs: Seq<FlightInformationRegionRaw>, all: Seq<StationRawView>) -> BuildState
    decreases frs.len(),
{
    if frs.len() == 0 {
        empty_build()
    } else {
        fir_step(firs_fold(frs.drop_last(), all), frs.last(), all)
    }
}

/// Every raw station of every region, in order: the stations that parents are
/// looked up in.
pub open spec fn all_raw_stations(frs: Seq<FlightInformationRegionRaw>) -> Seq<StationRawView> {
    concat_all(frs.map_values(|f: FlightInformationRegionRaw| raw_views(f.stations@)))
}

/// What assembling a network from the raw regions `frs` produces.
pub open spec fn build(frs: Seq<FlightInformationRegionRaw>) -> BuildState {
    firs_fold(frs, all_raw_stations(frs))
}

/// The contents of a list of stations.
pub open spec fn station_views(v: Seq<Station>) -> Seq<StationView> {
    v.map_values(|s: Station| s@)
}

/// The contents of a list of positions.
pub open spec fn position_views(v: Seq<Position>) -> Seq<PositionView> {
    v.map_values(|p: Position| p@)
}

/// Whether a station with the identifier `id` is in `v`.
pub fn stations_contain(v: &Vec<Station>, id: &crate::ids::StationId) -> (r: bool)
    ensures
        r == has_station(station_views(v@), id@),
{
    let mut i: usize = 0;
    while i < v.len()
        invariant
            i <= v.len(),
            forall|j: int| 0 <= j < i ==> v@[j]@.id != id@,
        decreases v.len() - i,
    {
        if v[i].id == *id {
            assert(station_views(v@)[i as int].id == id@);
            return true;
        }
        i = i + 1;
    }
    false
}

/// Whether a position with the identifier `id` is in `v`.
pub fn positions_contain(v: &Vec<Position>, id: &crate::ids::PositionId) -> (r: bool)
    ensures
        r == has_position(position_views(v@), id@),
{
    let mut i: usize = 0;
    while i < v.len()
        invariant
            i <= v.len(),
            forall|j: int| 0 <= j < i ==> v@[j]@.id != id@,
        decreases v.len() - i,
    {
        if v[i].id == *id {
            assert(position_views(v@)[i as int].id == id@);
            return true;
        }
        i = i + 1;
    }
    false
}

/// Inserting `x` at `k` adds exactly `x` to the set of elements.
pub proof fn lemma_insert_to_set<A>(s: Seq<A>, k: int, x: A)
    requires
        0 <= k <= s.len(),
    ensures
        s.insert(k, x).to_set() == s.to_set().insert(x),
{
    let t = s.insert(k, x);
    assert forall|y: A| t.to_set().contains(y) <==> s.to_set().insert(x).contains(y) by {
        if t.contains(y) {
            let i = choose|i: int| 0 <= i < t.len() && t[i] == y;
            if i < k {
                assert(s[i] == y);
            } else if i > k {
                assert(s[i - 1] == y);
            }
        }
        if s.contains(y) {
            let i = choose|i: int| 0 <= i < s.len() && s[i] == y;
            if i < k {
                assert(t[i] == y);
            } else {
                assert(t[i + 1] == y);
            }
        }
        if y == x {
            assert(t[k] == y);
        }
    }
    assert(t.to_set() =~= s.to_set().insert(x));
}

/// Two lists with the same elements hold the same station identifiers.
pub proof fn lemma_same_set_has_station(a: Seq<StationView>, b: Seq<StationView>, id: Seq<char>)
    requires
        a.to_set() == b.to_set(),
    ensures
        has_station(a, id) == has_station(b, id),
{
    if has_station(a, id) {
        let i = choose|i: int| 0 <= i < a.len() && a[i].id == id;
        assert(a.to_set().contains(a[i]));
        let j = choose|j: int| 0 <= j < b.len() && b[j] == a[i];
        assert(b[j].id == id);
    }
    if has_station(b, id) {
        let i = choose|i: int| 0 <= i < b.len() && b[i].id == id;
        assert(b.to_set().contains(b[i]));
        let j = choose|j: int| 0 <= j < a.len() && a[j] == b[i];
        assert(a[j].id == id);
    }
}

/// Two lists with the same elements hold the same position identifiers.
pub proof fn lemma_same_set_has_position(a: Seq<PositionView>, b: Seq<PositionView>, id: Seq<char>)
    requires
        a.to_set() == b.to_set(),
    ensures
        has_position(a, id) == has_position(b, id),
{
    if has_position(a, id) {
        let i = choose|i: int| 0 <= i < a.len() && a[i].id == id;
        assert(a.to_set().contains(a[i]));
        let j = choose|j: int| 0 <= j < b.len() && b[j] == a[i];
        assert(b[j].id == id);
    }
    if has_position(b, id) {
        let i = choose|i: int| 0 <= i < b.len() && b[i].id == id;
        assert(b.to_set().contains(b[i]));
        let j = choose|j: int| 0 <= j < a.len() && a[j] == b[i];
        assert(a[j].id == id);
    }
}

/// Inserts a station with a new identifier, keeping the list sorted.
pub fn insert_station_sorted(v: &mut Vec<Station>, s: Station)
    requires
        stations_sorted(station_views(old(v)@)),
        !has_station(station_views(old(v)@), s@.id),
    ensures
        stations_sorted(station_views(final(v)@)),
        station_views(final(v)@).to_set() == station_views(old(v)@).to_set().insert(s@),
{
    let ghost old_views = station_views(v@);
    let mut k: usize = 0;
    while k < v.len()
        invariant
            k <= v.len(),
            old_views == station_views(v@),
            stations_sorted(old_views),
            !has_station(old_views, s@.id),
            forall|j: int| 0 <= j < k ==> seq_lt(#[trigger] old_views[j].id, s@.id),
        ensures
            k <= v.len(),
            old_views == station_views(v@),
            forall|j: int| 0 <= j < k ==> seq_lt(#[trigger] old_views[j].id, s@.id),
            k < v.len() ==> seq_lt(s@.id, old_views[k as int].id),
        decreases v.len() - k,
    {
        if str_lt(s.id.as_str(), v[k].id.as_str()) {
            break;
        }
        proof {
            assert(old_views[k as int].id != s@.id);
            lemma_seq_lt_total(old_views[k as int].id, s@.id);
        }
        k = k + 1;
    }
    let ghost sv = s@;
    let ghost kk = k as int;
    v.insert(k, s);
    proof {
        let nv = station_views(v@);
        assert(nv =~= old_views.insert(kk, sv));
        lemma_insert_to_set(old_views, kk, sv);
        assert forall|i: int, j: int| 0 <= i < j < nv.len() implies seq_lt(
            #[trigger] nv[i].id,
            #[trigger] nv[j].id,
        ) by {
            if j < kk {
                assert(seq_lt(old_views[i].id, old_views[j].id));
            } else if j == kk {
                assert(seq_lt(old_views[i].id, sv.id));
            } else if i == kk {
                if j - 1 > kk {
                    assert(seq_lt(old_views[kk].id, old_views[j - 1].id));
                    lemma_seq_lt_transitive(sv.id, old_views[kk].id, old_views[j - 1].id);
                }
            } else if i < kk {
                assert(seq_lt(old_views[i].id, sv.id));
                if j - 1 > kk {
                    assert(seq_lt(old_views[kk].id, old_views[j - 1].id));
                    lemma_seq_lt_transitive(sv.id, old_views[kk].id, old_views[j - 1].id);
                }
                lemma_seq_lt_transitive(old_views[i].id, sv.id, old_views[j - 1].id);
            } else {
                assert(seq_lt(old_views[i - 1].id, old_views[j - 1].id));
            }
        }
    }
}

/// Inserts a position with a new identifier, keeping the list sorted.
pub fn insert_position_sorted(v: &mut Vec<Position>, s: Position)
    requires
        positions_sorted(position_views(old(v)@)),
        !has_position(position_views(old(v)@), s@.id),
    ensures
        positions_sorted(position_views(final(v)@)),
        position_views(final(v)@).to_set() == position_views(old(v)@).to_set().insert(s@),
{
    let ghost old_views = position_views(v@);
    let mut k: usize = 0;
    while k < v.len()
        invariant
            k <= v.len(),
            old_views == position_views(v@),
            positions_sorted(old_views),
            !has_position(old_views, s@.id),
            forall|j: int| 0 <= j < k ==> seq_lt(#[trigger] old_views[j].id, s@.id),
        ensures
            k <= v.len(),
            old_views == position_views(v@),
            forall|j: int| 0 <= j < k ==> seq_lt(#[trigger] old_views[j].id, s@.id),
            k < v.len() ==> seq_lt(s@.id, old_views[k as int].id),
        decreases v.len() - k,
    {
        if str_lt(s.id.as_str(), v[k].id.as_str()) {
            break;
        }
        proof {
            assert(old_views[k as int].id != s@.id);
            lemma_seq_lt_total(old_views[k as int].id, s@.id);
        }
        k = k + 1;
    }
    let ghost sv = s@;
    let ghost kk = k as int;
    v.insert(k, s);
    proof {
        let nv = position_views(v@);
        assert(nv =~= old_views.insert(kk, sv));
        lemma_insert_to_set(old_views, kk, sv);
        assert forall|i: int, j: int| 0 <= i < j < nv.len() implies seq_lt(
            #[trigger] nv[i].id,
            #[trigger] nv[j].id,
        ) by {
            if j < kk {
                assert(seq_lt(old_views[i].id, old_views[j].id));
            } else if j == kk {
                assert(seq_lt(old_views[i].id, sv.id));
            } else if i == kk {
                if j - 1 > kk {
                    assert(seq_lt(old_views[kk].id, old_views[j - 1].id));
                    lemma_seq_lt_transitive(sv.id, old_views[kk].id, old_views[j - 1].id);
                }
            } else if i < kk {
                assert(seq_lt(old_views[i].id, sv.id));
                if j - 1 > kk {
                    assert(seq_lt(old_views[kk].id, old_views[j - 1].id));
                    lemma_seq_lt_transitive(sv.id, old_views[kk].id, old_views[j - 1].id);
                }
                lemma_seq_lt_transitive(old_views[i].id, sv.id, old_views[j - 1].id);
            } else {
                assert(seq_lt(old_views[i - 1].id, old_views[j - 1].id));
            }
        }
    }
}

} // verus!
