//! The coverage network: every station and position, and which online
//! position covers which station.
use crate::coverage::fir::{fir_problem, fir_view_of, FirView, FlightInformationRegion, FlightInformationRegionRaw};
use crate::coverage::position::{position_problem, position_view_of, Position, PositionRaw, PositionView};
use crate::coverage::station::{
    concat_all, opt_station_view, raw_views, resolved_coverage, Station, StationRaw, StationRawView,
    StationView,
};
use crate::coverage::{
    validation_message, CoverageError, CoverageErrorView, StructureError, StructureErrorView,
    ValidationErrorView,
};
use crate::coverage::assembly::{
    all_raw_stations, build, duplicate_error, empty_build, fir_step, firs_fold, has_station,
    insert_position_sorted, insert_station_sorted, lemma_same_set_has_position,
    lemma_same_set_has_station, load_error, position_step, position_views, positions_contain,
    positions_fold, raw_position_views, station_step, station_views, stations_contain,
    stations_fold, BuildState,
};
use crate::ids::FlightInformationRegionId;
use crate::facility::FacilityType;
use crate::ids::{PositionId, StationId};
use crate::protocol::{changes_view, PositionChange, StationChange, StationChangeView};
use crate::text::{
    ascii_upper, chars_start_with, replace_all, seq_lt, starts_with, str_chars,
    str_replace, str_to_ascii_uppercase,
};
use crate::text::{
    lemma_seq_lt_asymmetric, lemma_seq_lt_irreflexive, lemma_seq_lt_total, lemma_seq_lt_transitive,
    str_lt,
};
use vstd::prelude::*;

verus! {

/// The set of position identifiers that a list holds.
pub open spec fn online_set(v: Seq<PositionId>) -> Set<Seq<char>> {
    Set::new(|s: Seq<char>| exists|i: int| 0 <= i < v.len() && v[i]@ == s)
}

/// Whether `v` holds the identifier `id`.
pub fn contains_position(v: &Vec<PositionId>, id: &PositionId) -> (r: bool)
    ensures
        r == online_set(v@).contains(id@),
{
    let mut i: usize = 0;
    while i < v.len()
        invariant
            i <= v.len(),
            forall|j: int| 0 <= j < i ==> v@[j]@ != id@,
        decreases v.len() - i,
    {
        if v[i] == *id {
            return true;
        }
        i = i + 1;
    }
    false
}

/// Every station identifier comes strictly before the next ones.
pub open spec fn stations_sorted(s: Seq<StationView>) -> bool {
    forall|i: int, j: int| 0 <= i < j < s.len() ==> seq_lt(#[trigger] s[i].id, #[trigger] s[j].id)
}

/// Every position identifier comes strictly before the next ones.
pub open spec fn positions_sorted(s: Seq<PositionView>) -> bool {
    forall|i: int, j: int| 0 <= i < j < s.len() ==> seq_lt(#[trigger] s[i].id, #[trigger] s[j].id)
}

/// Whether some position in `ps` has the identifier `id`.
pub open spec fn has_position(ps: Seq<PositionView>, id: Seq<char>) -> bool {
    exists|i: int| 0 <= i < ps.len() && ps[i].id == id
}

/// The position in `ps` with the identifier `id`, if any.
pub open spec fn position_of(ps: Seq<PositionView>, id: Seq<char>) -> Option<PositionView> {
    if has_position(ps, id) {
        Some(ps[choose|i: int| 0 <= i < ps.len() && ps[i].id == id])
    } else {
        None
    }
}

/// The station in `ss` with the identifier `id`, if any.
pub open spec fn station_of(ss: Seq<StationView>, id: Seq<char>) -> Option<StationView> {
    if exists|i: int| 0 <= i < ss.len() && ss[i].id == id {
        Some(ss[choose|i: int| 0 <= i < ss.len() && ss[i].id == id])
    } else {
        None
    }
}

/// The first position of `ctrl` that is online and known to the network.
pub open spec fn first_covering(
    ctrl: Seq<Seq<char>>,
    online: Set<Seq<char>>,
    ps: Seq<PositionView>,
) -> Option<Seq<char>>
    decreases ctrl.len(),
{
    if ctrl.len() == 0 {
        None
    } else if online.contains(ctrl[0]) && has_position(ps, ctrl[0]) {
        Some(ctrl[0])
    } else {
        first_covering(ctrl.drop_first(), online, ps)
    }
}

/// The mathematical content of a [`Network`].
pub struct NetworkView {
    pub fir_ids: Seq<Seq<char>>,
    /// The regions, each with its stations and positions.
    pub firs: Seq<FirView>,
    pub positions: Seq<PositionView>,
    pub stations: Seq<StationView>,
}

/// The position that covers the station `sid` when the positions in `online`
/// are online: the first of the station's positions that is online.
pub open spec fn controlling(n: NetworkView, sid: Seq<char>, online: Set<Seq<char>>) -> Option<
    Seq<char>,
> {
    match station_of(n.stations, sid) {
        None => None,
        Some(st) => first_covering(st.controlled_by, online, n.positions),
    }
}

/// The covered stations among `ss`, in order, each with whether the client's
/// own position `client` covers it.
pub open spec fn covered(
    ss: Seq<StationView>,
    ps: Seq<PositionView>,
    online: Set<Seq<char>>,
    client: Option<Seq<char>>,
) -> Seq<(StationView, bool)>
    decreases ss.len(),
{
    if ss.len() == 0 {
        Seq::empty()
    } else {
        let rest = covered(ss.drop_last(), ps, online, client);
        match first_covering(ss.last().controlled_by, online, ps) {
            None => rest,
            Some(p) => rest.push((ss.last(), client == Some(p))),
        }
    }
}

/// The change that a station sees when the online positions go from
/// `before` to `after`.
pub open spec fn station_change(
    st: StationView,
    ps: Seq<PositionView>,
    before: Set<Seq<char>>,
    after: Set<Seq<char>>,
) -> Option<StationChangeView> {
    let b = first_covering(st.controlled_by, before, ps);
    let a = first_covering(st.controlled_by, after, ps);
    if b == a {
        None
    } else {
        match (b, a) {
            (None, Some(n)) => Some(StationChangeView::Online { station_id: st.id, position_id: n }),
            (Some(_), None) => Some(StationChangeView::Offline { station_id: st.id }),
            (Some(o), Some(n)) => Some(
                StationChangeView::Handoff { station_id: st.id, from_position_id: o, to_position_id: n },
            ),
            (None, None) => None,
        }
    }
}

/// The rank of a change kind in the order of `StationChange`: online, then
/// handoff, then offline.
pub open spec fn change_rank(c: StationChangeView) -> int {
    match c {
        StationChangeView::Online { .. } => 0,
        StationChangeView::Handoff { .. } => 1,
        StationChangeView::Offline { .. } => 2,
    }
}

/// The changes of rank `rank` that the stations `ss` see, in station order.
pub open spec fn changes_of_rank(
    ss: Seq<StationView>,
    ps: Seq<PositionView>,
    before: Set<Seq<char>>,
    after: Set<Seq<char>>,
    rank: int,
) -> Seq<StationChangeView>
    decreases ss.len(),
{
    if ss.len() == 0 {
        Seq::empty()
    } else {
        let rest = changes_of_rank(ss.drop_last(), ps, before, after, rank);
        match station_change(ss.last(), ps, before, after) {
            Some(c) => if change_rank(c) == rank {
                rest.push(c)
            } else {
                rest
            },
            None => rest,
        }
    }
}

/// Every change that the stations `ss` see, sorted as `StationChange` sorts:
/// by kind first, then by station.
pub open spec fn all_changes(
    ss: Seq<StationView>,
    ps: Seq<PositionView>,
    before: Set<Seq<char>>,
    after: Set<Seq<char>>,
) -> Seq<StationChangeView> {
    changes_of_rank(ss, ps, before, after, 0) + changes_of_rank(ss, ps, before, after, 1)
        + changes_of_rank(ss, ps, before, after, 2)
}

proof fn lemma_no_change_of_rank(
    ss: Seq<StationView>,
    ps: Seq<PositionView>,
    online: Set<Seq<char>>,
    rank: int,
)
    ensures
        changes_of_rank(ss, ps, online, online, rank).len() == 0,
    decreases ss.len(),
{
    if ss.len() > 0 {
        lemma_no_change_of_rank(ss.drop_last(), ps, online, rank);
    }
}

/// Where the online positions stay the same, no station changes.
pub proof fn lemma_no_change_without_movement(
    ss: Seq<StationView>,
    ps: Seq<PositionView>,
    online: Set<Seq<char>>,
)
    ensures
        all_changes(ss, ps, online, online) == Seq::<StationChangeView>::empty(),
{
    lemma_no_change_of_rank(ss, ps, online, 0);
    lemma_no_change_of_rank(ss, ps, online, 1);
    lemma_no_change_of_rank(ss, ps, online, 2);
    assert(all_changes(ss, ps, online, online) =~= Seq::<StationChangeView>::empty());
}

/// `c` is the change that the station `ss[k]` sees.
pub open spec fn change_of_station(
    ss: Seq<StationView>,
    ps: Seq<PositionView>,
    before: Set<Seq<char>>,
    after: Set<Seq<char>>,
    k: int,
    c: StationChangeView,
) -> bool {
    0 <= k < ss.len() && station_change(ss[k], ps, before, after) == Some(c)
}

/// Each change of rank `rank` comes from a station and has that rank; over
/// stations sorted by identifier, the changes come sorted by station.
proof fn lemma_changes_of_rank_origin(
    ss: Seq<StationView>,
    ps: Seq<PositionView>,
    before: Set<Seq<char>>,
    after: Set<Seq<char>>,
    rank: int,
)
    requires
        stations_sorted(ss),
    ensures
        forall|i: int|
            0 <= i < changes_of_rank(ss, ps, before, after, rank).len() ==> change_rank(
                #[trigger] changes_of_rank(ss, ps, before, after, rank)[i],
            ) == rank && exists|k: int|
                change_of_station(ss, ps, before, after, k, changes_of_rank(ss, ps, before, after, rank)[i]),
        forall|i: int, j: int|
            0 <= i < j < changes_of_rank(ss, ps, before, after, rank).len() ==> seq_lt(
                (#[trigger] changes_of_rank(ss, ps, before, after, rank)[i]).station(),
                (#[trigger] changes_of_rank(ss, ps, before, after, rank)[j]).station(),
            ),
    decreases ss.len(),
{
    if ss.len() > 0 {
        let sd = ss.drop_last();
        assert(stations_sorted(sd)) by {
            assert forall|i: int, j: int| 0 <= i < j < sd.len() implies seq_lt(
                #[trigger] sd[i].id,
                #[trigger] sd[j].id,
            ) by {
                assert(sd[i] == ss[i] && sd[j] == ss[j]);
            }
        }
        lemma_changes_of_rank_origin(sd, ps, before, after, rank);
        let rest = changes_of_rank(sd, ps, before, after, rank);
        let cs = changes_of_rank(ss, ps, before, after, rank);
        let n = ss.len() - 1;
        assert(ss.last() == ss[n]);
        lemma_station_change_station(ss[n], ps, before, after);
        match station_change(ss[n], ps, before, after) {
            Some(c) => {
                if change_rank(c) == rank {
                    assert(cs == rest.push(c));
                } else {
                    assert(cs == rest);
                }
            },
            None => {
                assert(cs == rest);
            },
        }
        assert forall|k: int, c: StationChangeView| change_of_station(sd, ps, before, after, k, c)
            implies change_of_station(ss, ps, before, after, k, c) && k < n && seq_lt(
            c.station(),
            ss[n].id,
        ) by {
            assert(sd[k] == ss[k]);
            lemma_station_change_station(ss[k], ps, before, after);
        }
        assert forall|i: int| 0 <= i < cs.len() implies change_rank(#[trigger] cs[i]) == rank
            && exists|k: int| change_of_station(ss, ps, before, after, k, cs[i]) by {
            if i < rest.len() {
                assert(cs[i] == rest[i]);
                let k = choose|k: int| change_of_station(sd, ps, before, after, k, rest[i]);
                assert(change_of_station(ss, ps, before, after, k, cs[i]));
            } else {
                assert(change_of_station(ss, ps, before, after, n, cs[i]));
            }
        }
        assert forall|i: int, j: int| 0 <= i < j < cs.len() implies seq_lt(
            (#[trigger] cs[i]).station(),
            (#[trigger] cs[j]).station(),
        ) by {
            assert(cs[i] == rest[i]);
            if j < rest.len() {
                assert(cs[j] == rest[j]);
            } else {
                let k = choose|k: int| change_of_station(sd, ps, before, after, k, rest[i]);
                assert(change_of_station(sd, ps, before, after, k, rest[i]));
            }
        }
    } else {
        assert(changes_of_rank(ss, ps, before, after, rank).len() == 0);
    }
}

/// The change a station sees is about that station.
proof fn lemma_station_change_station(
    st: StationView,
    ps: Seq<PositionView>,
    before: Set<Seq<char>>,
    after: Set<Seq<char>>,
)
    ensures
        station_change(st, ps, before, after) matches Some(c) ==> c.station() == st.id,
{
}

/// The changes `cs` come by kind (online, handoff, offline) and, within a
/// kind, by station identifier.
pub open spec fn changes_in_order(cs: Seq<StationChangeView>) -> bool {
    forall|i: int, j: int|
        0 <= i < j < cs.len() ==> change_rank(#[trigger] cs[i]) < change_rank(#[trigger] cs[j]) || (
        change_rank(cs[i]) == change_rank(cs[j]) && seq_lt(cs[i].station(), cs[j].station()))
}

/// No station occurs twice among the changes `cs`.
pub open spec fn stations_once(cs: Seq<StationChangeView>) -> bool {
    forall|i: int, j: int|
        0 <= i < j < cs.len() ==> (#[trigger] cs[i]).station() != (#[trigger] cs[j]).station()
}

/// Over stations sorted by identifier, the changes come in the order of
/// `StationChange`, each station at most once.
pub proof fn lemma_changes_sorted(
    ss: Seq<StationView>,
    ps: Seq<PositionView>,
    before: Set<Seq<char>>,
    after: Set<Seq<char>>,
)
    requires
        stations_sorted(ss),
    ensures
        changes_in_order(all_changes(ss, ps, before, after)),
        stations_once(all_changes(ss, ps, before, after)),
{
    lemma_changes_of_rank_origin(ss, ps, before, after, 0);
    lemma_changes_of_rank_origin(ss, ps, before, after, 1);
    lemma_changes_of_rank_origin(ss, ps, before, after, 2);
    let c0 = changes_of_rank(ss, ps, before, after, 0);
    let c1 = changes_of_rank(ss, ps, before, after, 1);
    let c2 = changes_of_rank(ss, ps, before, after, 2);
    let cs = all_changes(ss, ps, before, after);
    assert(cs == c0 + c1 + c2);
    // Each entry of `cs`: its part, its index there, and a station it comes from.
    assert forall|i: int| 0 <= i < cs.len() implies exists|k: int|
        change_of_station(ss, ps, before, after, k, #[trigger] cs[i]) by {
        if i < c0.len() {
            assert(cs[i] == c0[i]);
        } else if i < c0.len() + c1.len() {
            assert(cs[i] == c1[i - c0.len()]);
        } else {
            assert(cs[i] == c2[i - c0.len() - c1.len()]);
        }
    }
    assert forall|i: int, j: int| 0 <= i < j < cs.len() implies (change_rank(#[trigger] cs[i]) < change_rank(
        #[trigger] cs[j],
    ) || (change_rank(cs[i]) == change_rank(cs[j]) && seq_lt(cs[i].station(), cs[j].station())))
        && cs[i].station() != cs[j].station() by {
        let l0: int = c0.len() as int;
        let l1: int = (c0.len() + c1.len()) as int;
        let same_part = (j < l0) || (l0 <= i && j < l1) || l1 <= i;
        if same_part {
            let (part, off) = if j < l0 {
                (c0, 0int)
            } else if j < l1 {
                (c1, l0)
            } else {
                (c2, l1)
            };
            assert(cs[i] == part[i - off]);
            assert(cs[j] == part[j - off]);
            assert(0 <= i - off < j - off < part.len());
            assert(seq_lt(part[i - off].station(), part[j - off].station()));
            lemma_seq_lt_irreflexive(part[i - off].station());
        } else {
            let ri = if i < l0 {
                0int
            } else if i < l1 {
                1int
            } else {
                2int
            };
            let rj = if j < l0 {
                0int
            } else if j < l1 {
                1int
            } else {
                2int
            };
            if i < l0 {
                assert(cs[i] == c0[i]);
            } else if i < l1 {
                assert(cs[i] == c1[i - l0]);
            } else {
                assert(cs[i] == c2[i - l1]);
            }
            if j < l0 {
                assert(cs[j] == c0[j]);
            } else if j < l1 {
                assert(cs[j] == c1[j - l0]);
            } else {
                assert(cs[j] == c2[j - l1]);
            }
            assert(change_rank(cs[i]) == ri && change_rank(cs[j]) == rj && ri < rj);
            let k1 = choose|k: int| change_of_station(ss, ps, before, after, k, cs[i]);
            let k2 = choose|k: int| change_of_station(ss, ps, before, after, k, cs[j]);
            lemma_station_change_station(ss[k1], ps, before, after);
            lemma_station_change_station(ss[k2], ps, before, after);
            if cs[i].station() == cs[j].station() {
                if k1 < k2 {
                    assert(seq_lt(ss[k1].id, ss[k2].id));
                    lemma_seq_lt_irreflexive(ss[k1].id);
                } else if k2 < k1 {
                    assert(seq_lt(ss[k2].id, ss[k1].id));
                    lemma_seq_lt_irreflexive(ss[k1].id);
                }
                assert(k1 == k2);
                assert(cs[i] == cs[j]);
            }
        }
    }
}

/// The change that undoes `c`: a station that came online goes offline, and a
/// handoff goes back.
pub open spec fn reversed_change(c: StationChangeView) -> StationChangeView {
    match c {
        StationChangeView::Online { station_id, .. } => StationChangeView::Offline { station_id },
        StationChangeView::Handoff { station_id, from_position_id, to_position_id } => StationChangeView::Handoff {
            station_id,
            from_position_id: to_position_id,
            to_position_id: from_position_id,
        },
        StationChangeView::Offline { station_id } => StationChangeView::Offline { station_id },
    }
}

/// More online positions never leave a covered station uncovered.
proof fn lemma_first_covering_monotone(
    ctrl: Seq<Seq<char>>,
    fewer: Set<Seq<char>>,
    more: Set<Seq<char>>,
    ps: Seq<PositionView>,
)
    requires
        fewer.subset_of(more),
    ensures
        first_covering(ctrl, fewer, ps) is Some ==> first_covering(ctrl, more, ps) is Some,
    decreases ctrl.len(),
{
    if ctrl.len() > 0 {
        lemma_first_covering_monotone(ctrl.drop_first(), fewer, more, ps);
    }
}

/// Going back from `more` to `fewer` online positions, each station sees the
/// reverse of what it saw going from `fewer` to `more`, by kind.
proof fn lemma_reversed_ranks(
    ss: Seq<StationView>,
    ps: Seq<PositionView>,
    fewer: Set<Seq<char>>,
    more: Set<Seq<char>>,
)
    requires
        fewer.subset_of(more),
    ensures
        changes_of_rank(ss, ps, fewer, more, 2).len() == 0,
        changes_of_rank(ss, ps, more, fewer, 0).len() == 0,
        changes_of_rank(ss, ps, more, fewer, 1) == changes_of_rank(ss, ps, fewer, more, 1).map_values(
            |c: StationChangeView| reversed_change(c),
        ),
        changes_of_rank(ss, ps, more, fewer, 2) == changes_of_rank(ss, ps, fewer, more, 0).map_values(
            |c: StationChangeView| reversed_change(c),
        ),
    decreases ss.len(),
{
    if ss.len() > 0 {
        let sd = ss.drop_last();
        lemma_reversed_ranks(sd, ps, fewer, more);
        let st = ss.last();
        lemma_first_covering_monotone(st.controlled_by, fewer, more, ps);
        let up = station_change(st, ps, fewer, more);
        let down = station_change(st, ps, more, fewer);
        let b = first_covering(st.controlled_by, fewer, ps);
        let a = first_covering(st.controlled_by, more, ps);
        if b == a {
            assert(up is None && down is None);
        } else {
            assert(a is Some);
            assert(up is Some && change_rank(up->0) != 2 && down == Some(reversed_change(up->0)));
        }
        let r1 = changes_of_rank(sd, ps, fewer, more, 1);
        let r0 = changes_of_rank(sd, ps, fewer, more, 0);
        match up {
            None => {},
            Some(c) => {
                if change_rank(c) == 1 {
                    assert(r1.push(c).map_values(|c: StationChangeView| reversed_change(c)) =~= r1.map_values(
                        |c: StationChangeView| reversed_change(c),
                    ).push(reversed_change(c)));
                } else {
                    assert(r0.push(c).map_values(|c: StationChangeView| reversed_change(c)) =~= r0.map_values(
                        |c: StationChangeView| reversed_change(c),
                    ).push(reversed_change(c)));
                }
            },
        }
    } else {
        assert(changes_of_rank(ss, ps, fewer, more, 1).map_values(|c: StationChangeView| reversed_change(c))
            =~= Seq::<StationChangeView>::empty());
        assert(changes_of_rank(ss, ps, fewer, more, 0).map_values(|c: StationChangeView| reversed_change(c))
            =~= Seq::<StationChangeView>::empty());
    }
}

/// A position that connects and then disconnects again: connecting brings
/// stations online or hands them over, never offline; disconnecting undoes
/// exactly that, the handovers handed back and the stations that came online
/// going offline, in the order of `StationChange`.
pub proof fn lemma_disconnect_undoes_connect(
    ss: Seq<StationView>,
    ps: Seq<PositionView>,
    online: Set<Seq<char>>,
    p: Seq<char>,
)
    requires
        !online.contains(p),
    ensures
        ({
            let with_p = online.insert(p);
            let up = all_changes(ss, ps, online, with_p);
            let down = all_changes(ss, ps, with_p, with_p.remove(p));
            &&& up == changes_of_rank(ss, ps, online, with_p, 0) + changes_of_rank(ss, ps, online, with_p, 1)
            &&& down == changes_of_rank(ss, ps, online, with_p, 1).map_values(
                |c: StationChangeView| reversed_change(c),
            ) + changes_of_rank(ss, ps, online, with_p, 0).map_values(
                |c: StationChangeView| reversed_change(c),
            )
        }),
{
    let with_p = online.insert(p);
    assert(with_p.remove(p) =~= online);
    lemma_reversed_ranks(ss, ps, online, with_p);
    assert(changes_of_rank(ss, ps, online, with_p, 2) =~= Seq::<StationChangeView>::empty());
    assert(changes_of_rank(ss, ps, with_p, online, 0) =~= Seq::<StationChangeView>::empty());
    assert(all_changes(ss, ps, online, with_p) =~= changes_of_rank(ss, ps, online, with_p, 0) + changes_of_rank(
        ss,
        ps,
        online,
        with_p,
        1,
    ));
    assert(all_changes(ss, ps, with_p, online) =~= changes_of_rank(ss, ps, with_p, online, 1) + changes_of_rank(
        ss,
        ps,
        with_p,
        online,
        2,
    ));
}

/// Over stations sorted by identifier, the covered stations come sorted by
/// identifier, each one of the stations.
pub proof fn lemma_covered_sorted(
    ss: Seq<StationView>,
    ps: Seq<PositionView>,
    online: Set<Seq<char>>,
    client: Option<Seq<char>>,
)
    requires
        stations_sorted(ss),
    ensures
        forall|i: int|
            0 <= i < covered(ss, ps, online, client).len() ==> exists|k: int|
                0 <= k < ss.len() && ss[k] == (#[trigger] covered(ss, ps, online, client)[i]).0,
        forall|i: int, j: int|
            0 <= i < j < covered(ss, ps, online, client).len() ==> seq_lt(
                (#[trigger] covered(ss, ps, online, client)[i]).0.id,
                (#[trigger] covered(ss, ps, online, client)[j]).0.id,
            ),
    decreases ss.len(),
{
    if ss.len() > 0 {
        let sd = ss.drop_last();
        assert(stations_sorted(sd)) by {
            assert forall|i: int, j: int| 0 <= i < j < sd.len() implies seq_lt(
                #[trigger] sd[i].id,
                #[trigger] sd[j].id,
            ) by {
                assert(sd[i] == ss[i] && sd[j] == ss[j]);
            }
        }
        lemma_covered_sorted(sd, ps, online, client);
        let rest = covered(sd, ps, online, client);
        let cv = covered(ss, ps, online, client);
        let n = ss.len() - 1;
        assert(ss.last() == ss[n]);
        assert forall|i: int| 0 <= i < rest.len() implies exists|k: int|
            0 <= k < n && ss[k] == (#[trigger] rest[i]).0 by {
            let k = choose|k: int| 0 <= k < sd.len() && sd[k] == rest[i].0;
            assert(sd[k] == ss[k]);
        }
        assert forall|i: int| 0 <= i < cv.len() implies exists|k: int|
            0 <= k < ss.len() && ss[k] == (#[trigger] cv[i]).0 by {
            if i < rest.len() {
                assert(cv[i] == rest[i]);
                let k = choose|k: int| 0 <= k < n && ss[k] == rest[i].0;
            } else {
                assert(cv[i].0 == ss[n]);
            }
        }
        assert forall|i: int, j: int| 0 <= i < j < cv.len() implies seq_lt(
            (#[trigger] cv[i]).0.id,
            (#[trigger] cv[j]).0.id,
        ) by {
            assert(cv[i] == rest[i]);
            if j < rest.len() {
                assert(cv[j] == rest[j]);
            } else {
                let k = choose|k: int| 0 <= k < n && ss[k] == rest[i].0;
                assert(cv[j].0 == ss[n]);
            }
        }
    }
}

/// Over positions sorted by identifier, the positions that a controller
/// matches come sorted by identifier.
pub proof fn lemma_matching_sorted(
    ps: Seq<PositionView>,
    callsign: Seq<char>,
    freq: Seq<char>,
    ft: FacilityType,
)
    requires
        positions_sorted(ps),
    ensures
        positions_sorted(matching_positions(ps, callsign, freq, ft)),
{
    lemma_prefix_matches_sorted(ps, normalized_callsign(callsign), freq, ft);
}

proof fn lemma_prefix_matches_sorted(
    ps: Seq<PositionView>,
    callsign: Seq<char>,
    freq: Seq<char>,
    ft: FacilityType,
)
    requires
        positions_sorted(ps),
    ensures
        forall|i: int|
            0 <= i < prefix_matches(ps, callsign, freq, ft).len() ==> exists|k: int|
                0 <= k < ps.len() && ps[k] == #[trigger] prefix_matches(ps, callsign, freq, ft)[i],
        positions_sorted(prefix_matches(ps, callsign, freq, ft)),
    decreases ps.len(),
{
    if ps.len() > 0 {
        let pd = ps.drop_last();
        assert(positions_sorted(pd)) by {
            assert forall|i: int, j: int| 0 <= i < j < pd.len() implies seq_lt(
                #[trigger] pd[i].id,
                #[trigger] pd[j].id,
            ) by {
                assert(pd[i] == ps[i] && pd[j] == ps[j]);
            }
        }
        lemma_prefix_matches_sorted(pd, callsign, freq, ft);
        let rest = prefix_matches(pd, callsign, freq, ft);
        let m = prefix_matches(ps, callsign, freq, ft);
        let n = ps.len() - 1;
        assert(ps.last() == ps[n]);
        assert forall|i: int| 0 <= i < rest.len() implies exists|k: int|
            0 <= k < n && ps[k] == #[trigger] rest[i] by {
            let k = choose|k: int| 0 <= k < pd.len() && pd[k] == rest[i];
            assert(pd[k] == ps[k]);
        }
        assert forall|i: int| 0 <= i < m.len() implies exists|k: int|
            0 <= k < ps.len() && ps[k] == #[trigger] m[i] by {
            if i < rest.len() {
                assert(m[i] == rest[i]);
                let k = choose|k: int| 0 <= k < n && ps[k] == rest[i];
            } else {
                assert(m[i] == ps[n]);
            }
        }
        assert forall|i: int, j: int| 0 <= i < j < m.len() implies seq_lt(
            #[trigger] m[i].id,
            #[trigger] m[j].id,
        ) by {
            assert(m[i] == rest[i]);
            if j < rest.len() {
                assert(m[j] == rest[j]);
            } else {
                let k = choose|k: int| 0 <= k < n && ps[k] == rest[i];
                assert(m[j] == ps[n]);
            }
        }
    }
}

/// A callsign as the network matches it: the relief form `__` read as `_`,
/// upper-cased.
pub open spec fn normalized_callsign(c: Seq<char>) -> Seq<char> {
    ascii_upper(replace_all(c, "__"@, "_"@))
}

/// Whether the position is on `freq` with facility type `ft` and has a prefix
/// that starts `callsign`.
pub open spec fn prefix_match(
    p: PositionView,
    callsign: Seq<char>,
    freq: Seq<char>,
    ft: FacilityType,
) -> bool {
    p.frequency == freq && p.facility_type == ft && exists|k: int|
        0 <= k < p.prefixes.len() && starts_with(callsign, #[trigger] p.prefixes[k])
}

/// The positions of `ps` that match by prefix, in order.
pub open spec fn prefix_matches(
    ps: Seq<PositionView>,
    callsign: Seq<char>,
    freq: Seq<char>,
    ft: FacilityType,
) -> Seq<PositionView>
    decreases ps.len(),
{
    if ps.len() == 0 {
        Seq::empty()
    } else {
        let rest = prefix_matches(ps.drop_last(), callsign, freq, ft);
        if prefix_match(ps.last(), callsign, freq, ft) {
            rest.push(ps.last())
        } else {
            rest
        }
    }
}

/// The positions that a controller with this callsign, frequency and
/// facility type may be logged in as: the position named by the callsign if
/// its frequency and facility type agree, otherwise every position on that
/// frequency and facility type with a prefix that starts the callsign.
pub open spec fn matching_positions(
    ps: Seq<PositionView>,
    callsign: Seq<char>,
    freq: Seq<char>,
    ft: FacilityType,
) -> Seq<PositionView> {
    let c = normalized_callsign(callsign);
    match position_of(ps, c) {
        Some(p) => if p.frequency == freq && p.facility_type == ft {
            seq![p]
        } else {
            prefix_matches(ps, c, freq, ft)
        },
        None => prefix_matches(ps, c, freq, ft),
    }
}

/// The stations, positions and errors gathered so far agree with `st`: the
/// same stations and positions, each list sorted, and the same errors in the
/// same order.
pub open spec fn gathered(
    stations: Seq<Station>,
    positions: Seq<Position>,
    errors: Seq<CoverageError>,
    st: BuildState,
) -> bool {
    &&& station_views(stations).to_set() == st.stations.to_set()
    &&& stations_sorted(station_views(stations))
    &&& position_views(positions).to_set() == st.positions.to_set()
    &&& positions_sorted(position_views(positions))
    &&& errors.map_values(|e: CoverageError| e@) == st.errors
}

fn assemble_station(
    stations: &mut Vec<Station>,
    positions: &Vec<Position>,
    errors: &mut Vec<CoverageError>,
    sr: &StationRaw,
    fir_id: &FlightInformationRegionId,
    all: &Vec<StationRaw>,
    Ghost(st): Ghost<BuildState>,
)
    requires
        gathered(old(stations)@, positions@, old(errors)@, st),
    ensures
        gathered(final(stations)@, positions@, final(errors)@, station_step(st, sr@, fir_id@, raw_views(all@))),
{
    proof {
        lemma_same_set_has_station(station_views(stations@), st.stations, sr@.id);
    }
    let ghost old_errors = errors@;
    let ghost next = station_step(st, sr@, fir_id@, raw_views(all@));
    if stations_contain(stations, &sr.id) {
        errors.push(CoverageError::Structure(StructureError::Duplicate {
            entity: "Station".to_owned(),
            id: sr.id.to_string(),
        }));
        assert(errors@.map_values(|e: CoverageError| e@) =~= old_errors.map_values(|e: CoverageError| e@).push(
            duplicate_error("Station"@, sr@.id),
        ));
        return;
    }
    match Station::from_raw(sr.clone(), fir_id.clone(), all) {
        Err(e) => {
            let reason = e.message();
            errors.push(CoverageError::Structure(StructureError::Load {
                entity: "Station".to_owned(),
                id: sr.id.to_string(),
                reason,
            }));
            assert(errors@.map_values(|e: CoverageError| e@) =~= old_errors.map_values(|e: CoverageError| e@).push(
                load_error("Station"@, sr@.id, ValidationErrorView::Empty { field: "id"@ }),
            ));
        },
        Ok(station) => {
            if station.controlled_by.len() == 0 {
                errors.push(CoverageError::Structure(StructureError::EmptyCoverage(station.id.to_string())));
                assert(errors@.map_values(|e: CoverageError| e@) =~= old_errors.map_values(|e: CoverageError| e@).push(
                    CoverageErrorView::Structure(StructureErrorView::EmptyCoverage(sr@.id)),
                ));
            } else {
                let ghost sv = station@;
                let ghost old_views = station_views(stations@);
                insert_station_sorted(stations, station);
                proof {
                    assert(st.stations.push(sv) =~= st.stations.insert(st.stations.len() as int, sv));
                    crate::coverage::assembly::lemma_insert_to_set(st.stations, st.stations.len() as int, sv);
                    assert(next.stations == st.stations.push(sv));
                }
            }
        },
    }
}

fn assemble_position(
    stations: &Vec<Station>,
    positions: &mut Vec<Position>,
    errors: &mut Vec<CoverageError>,
    pr: &PositionRaw,
    fir_id: &FlightInformationRegionId,
    Ghost(st): Ghost<BuildState>,
)
    requires
        gathered(stations@, old(positions)@, old(errors)@, st),
    ensures
        gathered(stations@, final(positions)@, final(errors)@, position_step(st, pr@, fir_id@)),
{
    let ghost old_errors = errors@;
    let ghost next = position_step(st, pr@, fir_id@);
    match Position::from_raw(pr.clone(), fir_id.clone()) {
        Err(e) => {
            let reason = e.message();
            errors.push(CoverageError::Structure(StructureError::Load {
                entity: "Position".to_owned(),
                id: pr.id.to_string(),
                reason,
            }));
            proof {
                let pe = position_problem(pr@).unwrap();
                assert(errors@.map_values(|e: CoverageError| e@) =~= old_errors.map_values(|e: CoverageError| e@).push(
                    load_error("Position"@, pr@.id, pe),
                ));
            }
        },
        Ok(position) => {
            proof {
                lemma_same_set_has_position(position_views(positions@), st.positions, pr@.id);
            }
            if positions_contain(positions, &position.id) {
                errors.push(CoverageError::Structure(StructureError::Duplicate {
                    entity: "Position".to_owned(),
                    id: position.id.to_string(),
                }));
                assert(errors@.map_values(|e: CoverageError| e@) =~= old_errors.map_values(|e: CoverageError| e@).push(
                    duplicate_error("Position"@, pr@.id),
                ));
            } else {
                let ghost pv = position@;
                insert_position_sorted(positions, position);
                proof {
                    assert(st.positions.push(pv) =~= st.positions.insert(st.positions.len() as int, pv));
                    crate::coverage::assembly::lemma_insert_to_set(st.positions, st.positions.len() as int, pv);
                    assert(next.positions == st.positions.push(pv));
                }
            }
        },
    }
}

fn assemble_fir(
    firs: &mut Vec<FlightInformationRegion>,
    stations: &mut Vec<Station>,
    positions: &mut Vec<Position>,
    errors: &mut Vec<CoverageError>,
    fr: &FlightInformationRegionRaw,
    all: &Vec<StationRaw>,
    Ghost(st): Ghost<BuildState>,
)
    requires
        gathered(old(stations)@, old(positions)@, old(errors)@, st),
        old(firs)@.map_values(|f: FlightInformationRegion| f.id@) == st.fir_ids,
        old(firs)@.map_values(|f: FlightInformationRegion| f@) == st.firs,
    ensures
        ({
            let next = fir_step(st, *fr, raw_views(all@));
            &&& gathered(final(stations)@, final(positions)@, final(errors)@, next)
            &&& final(firs)@.map_values(|f: FlightInformationRegion| f.id@) == next.fir_ids
            &&& final(firs)@.map_values(|f: FlightInformationRegion| f@) == next.firs
        }),
{
    let ghost old_errors = errors@;
    let ghost allv = raw_views(all@);
    match FlightInformationRegion::from_raw(fr) {
        Err(e) => {
            let reason = e.message();
            errors.push(CoverageError::Structure(StructureError::Load {
                entity: "FIR".to_owned(),
                id: fr.id.to_string(),
                reason,
            }));
            proof {
                let fe = fir_problem(*fr).unwrap();
                assert(errors@.map_values(|e: CoverageError| e@) =~= old_errors.map_values(|e: CoverageError| e@).push(
                    load_error("FIR"@, fr.id@, fe),
                ));
                assert(fir_step(st, *fr, allv).errors == st.errors.push(load_error("FIR"@, fr.id@, fe)));
            }
        },
        Ok(fir) => {
            let mut known = false;
            let mut k: usize = 0;
            while k < firs.len()
                invariant
                    k <= firs.len(),
                    fir.id@ == fr.id@,
                    known == exists|q: int| 0 <= q < k && firs@[q].id@ == fr.id@,
                decreases firs.len() - k,
            {
                if firs[k].id == fir.id {
                    known = true;
                }
                k = k + 1;
            }
            proof {
                let ids = firs@.map_values(|f: FlightInformationRegion| f.id@);
                if ids.contains(fr.id@) {
                    let q = choose|q: int| 0 <= q < ids.len() && ids[q] == fr.id@;
                    assert(firs@[q].id@ == fr.id@);
                }
                if known {
                    let q = choose|q: int| 0 <= q < firs@.len() && firs@[q].id@ == fr.id@;
                    assert(ids[q] == fr.id@);
                }
            }
            if known {
                errors.push(CoverageError::Structure(StructureError::Duplicate {
                    entity: "FIR".to_owned(),
                    id: fr.id.to_string(),
                }));
                assert(errors@.map_values(|e: CoverageError| e@) =~= old_errors.map_values(|e: CoverageError| e@).push(
                    duplicate_error("FIR"@, fr.id@),
                ));
                return;
            }
            let ghost old_ids = firs@.map_values(|f: FlightInformationRegion| f.id@);
            let ghost old_views = firs@.map_values(|f: FlightInformationRegion| f@);
            proof {
                assert(fir@ == fir_view_of(*fr));
            }
            firs.push(fir);
            assert(firs@.map_values(|f: FlightInformationRegion| f.id@) =~= old_ids.push(fr.id@));
            assert(firs@.map_values(|f: FlightInformationRegion| f@) =~= old_views.push(fir_view_of(*fr)));
            let ghost st1 = BuildState { fir_ids: st.fir_ids.push(fr.id@), firs: st.firs.push(fir_view_of(*fr)), ..st };
            let ghost srs = raw_views(fr.stations@);
            let mut j: usize = 0;
            assert(srs.subrange(0, 0) =~= Seq::<StationRawView>::empty());
            while j < fr.stations.len()
                invariant
                    j <= fr.stations.len(),
                    srs == raw_views(fr.stations@),
                    allv == raw_views(all@),
                    gathered(stations@, positions@, errors@, stations_fold(st1, srs.subrange(0, j as int), fr.id@, allv)),
                decreases fr.stations.len() - j,
            {
                let ghost cur = stations_fold(st1, srs.subrange(0, j as int), fr.id@, allv);
                assemble_station(stations, positions, errors, &fr.stations[j], &fr.id, all, Ghost(cur));
                proof {
                    let sub = srs.subrange(0, j + 1);
                    assert(sub.drop_last() =~= srs.subrange(0, j as int));
                    assert(sub.last() == fr.stations@[j as int]@);
                }
                j = j + 1;
            }
            assert(srs.subrange(0, j as int) =~= srs);
            let ghost st2 = stations_fold(st1, srs, fr.id@, allv);
            let ghost prs = raw_position_views(fr.positions@);
            let mut j: usize = 0;
            assert(prs.subrange(0, 0) =~= Seq::<crate::coverage::position::PositionRawView>::empty());
            while j < fr.positions.len()
                invariant
                    j <= fr.positions.len(),
                    prs == raw_position_views(fr.positions@),
                    gathered(stations@, positions@, errors@, positions_fold(st2, prs.subrange(0, j as int), fr.id@)),
                decreases fr.positions.len() - j,
            {
                let ghost cur = positions_fold(st2, prs.subrange(0, j as int), fr.id@);
                assemble_position(stations, positions, errors, &fr.positions[j], &fr.id, Ghost(cur));
                proof {
                    let sub = prs.subrange(0, j + 1);
                    assert(sub.drop_last() =~= prs.subrange(0, j as int));
                    assert(sub.last() == fr.positions@[j as int]@);
                }
                j = j + 1;
            }
            assert(prs.subrange(0, j as int) =~= prs);
            assert(fir_problem(*fr) is None);
            assert(!st.fir_ids.contains(fr.id@));
            assert(fir_step(st, *fr, allv) == positions_fold(st2, prs, fr.id@));
            proof {
                crate::coverage::assembly::lemma_stations_fold_keeps_firs(st1, srs, fr.id@, allv);
                crate::coverage::assembly::lemma_positions_fold_keeps_firs(st2, prs, fr.id@);
            }
        },
    }
}

/// A station covered by an online position.
#[derive(Debug)]
pub struct CoveredStation<'a> {
    pub station: &'a Station,
    /// Whether the client's own position covers the station.
    pub is_self_controlled: bool,
}

/// The network of stations and positions.
#[derive(Debug)]
pub struct Network {
    firs: Vec<FlightInformationRegion>,
    positions: Vec<Position>,
    stations: Vec<Station>,
}

impl View for Network {
    type V = NetworkView;

    closed spec fn view(&self) -> NetworkView {
        NetworkView {
            fir_ids: self.firs@.map_values(|f: FlightInformationRegion| f.id@),
            firs: self.firs@.map_values(|f: FlightInformationRegion| f@),
            positions: self.positions@.map_values(|p: Position| p@),
            stations: self.stations@.map_values(|s: Station| s@),
        }
    }
}

impl Network {
    /// The network keeps its stations and positions sorted by identifier.
    #[verifier::type_invariant]
    spec fn well_formed(&self) -> bool {
        &&& stations_sorted(self@.stations)
        &&& positions_sorted(self@.positions)
    }

    /// The network holds no FIR, station or position.
    pub fn new() -> (r: Network)
        ensures
            r@.fir_ids.len() == 0,
            r@.firs.len() == 0,
            r@.positions.len() == 0,
            r@.stations.len() == 0,
    {
        let r = Network { firs: Vec::new(), positions: Vec::new(), stations: Vec::new() };
        assert(r@.stations =~= Seq::<StationView>::empty());
        assert(r@.positions =~= Seq::<PositionView>::empty());
        r
    }

    /// Assembles the network from raw regions, taken in order.
    ///
    /// A region without identifier, stations or positions, and a region whose
    /// identifier was already taken, is reported and skipped. Of each other
    /// region, every station is taken (a repeated identifier, an empty
    /// identifier or an empty resolved coverage is reported and the station
    /// skipped; parents are looked up among the stations of all regions), and
    /// then every position (one that fails its checks or repeats an identifier
    /// is reported and skipped). The network is returned when nothing was
    /// reported, and the reports otherwise, in the order found.
    pub fn from_raw_firs(raw_firs: &Vec<FlightInformationRegionRaw>) -> (r: Result<
        Network,
        Vec<CoverageError>,
    >)
        ensures
            ({
                let b = build(raw_firs@);
                if b.errors.len() == 0 {
                    &&& r matches Ok(n)
                    &&& n@.fir_ids == b.fir_ids
                    &&& n@.firs == b.firs
                    &&& n@.stations.to_set() == b.stations.to_set()
                    &&& n@.positions.to_set() == b.positions.to_set()
                    &&& stations_sorted(n@.stations)
                    &&& positions_sorted(n@.positions)
                } else {
                    r matches Err(errs) && errs@.map_values(|e: CoverageError| e@) == b.errors
                }
            }),
    {
        let ghost frs = raw_firs@;
        let ghost per = frs.map_values(|f: FlightInformationRegionRaw| raw_views(f.stations@));
        let mut all: Vec<StationRaw> = Vec::new();
        let mut i: usize = 0;
        assert(per.subrange(0, 0) =~= Seq::<Seq<StationRawView>>::empty());
        assert(raw_views(all@) =~= Seq::<StationRawView>::empty());
        while i < raw_firs.len()
            invariant
                i <= raw_firs.len(),
                frs == raw_firs@,
                per == frs.map_values(|f: FlightInformationRegionRaw| raw_views(f.stations@)),
                raw_views(all@) == concat_all(per.subrange(0, i as int)),
            decreases raw_firs.len() - i,
        {
            let fr = &raw_firs[i];
            let ghost base = raw_views(all@);
            let mut j: usize = 0;
            assert(base + raw_views(fr.stations@).subrange(0, 0) =~= base);
            while j < fr.stations.len()
                invariant
                    j <= fr.stations.len(),
                    raw_views(all@) == base + raw_views(fr.stations@).subrange(0, j as int),
                decreases fr.stations.len() - j,
            {
                let c = fr.stations[j].clone();
                let ghost prev = all@;
                all.push(c);
                proof {
                    assert(raw_views(prev).len() == prev.len());
                    assert(all@ == prev.push(c));
                    assert(c@ == raw_views(fr.stations@)[j as int]);
                    assert(raw_views(all@) =~= raw_views(prev).push(c@));
                    assert(raw_views(all@) =~= base + raw_views(fr.stations@).subrange(0, j + 1));
                }
                j = j + 1;
            }
            proof {
                let sub = per.subrange(0, i + 1);
                assert(sub.drop_last() =~= per.subrange(0, i as int));
                assert(sub.last() == raw_views(fr.stations@));
                assert(raw_views(fr.stations@).subrange(0, j as int) =~= raw_views(fr.stations@));
            }
            i = i + 1;
        }
        assert(per.subrange(0, i as int) =~= per);
        let ghost allv = raw_views(all@);
        assert(allv == all_raw_stations(frs));
        let mut firs: Vec<FlightInformationRegion> = Vec::new();
        let mut stations: Vec<Station> = Vec::new();
        let mut positions: Vec<Position> = Vec::new();
        let mut errors: Vec<CoverageError> = Vec::new();
        let mut i: usize = 0;
        proof {
            assert(frs.subrange(0, 0) =~= Seq::<FlightInformationRegionRaw>::empty());
            assert(station_views(stations@) =~= Seq::<StationView>::empty());
            assert(position_views(positions@) =~= Seq::<PositionView>::empty());
            assert(errors@.map_values(|e: CoverageError| e@) =~= Seq::<CoverageErrorView>::empty());
            assert(firs@.map_values(|f: FlightInformationRegion| f.id@) =~= Seq::<Seq<char>>::empty());
            assert(firs@.map_values(|f: FlightInformationRegion| f@) =~= Seq::<FirView>::empty());
            assert(station_views(stations@).to_set() =~= Seq::<StationView>::empty().to_set());
            assert(position_views(positions@).to_set() =~= Seq::<PositionView>::empty().to_set());
        }
        while i < raw_firs.len()
            invariant
                i <= raw_firs.len(),
                frs == raw_firs@,
                allv == raw_views(all@),
                gathered(stations@, positions@, errors@, firs_fold(frs.subrange(0, i as int), allv)),
                firs@.map_values(|f: FlightInformationRegion| f.id@) == firs_fold(frs.subrange(0, i as int), allv).fir_ids,
                firs@.map_values(|f: FlightInformationRegion| f@) == firs_fold(frs.subrange(0, i as int), allv).firs,
            decreases raw_firs.len() - i,
        {
            let ghost cur = firs_fold(frs.subrange(0, i as int), allv);
            assemble_fir(&mut firs, &mut stations, &mut positions, &mut errors, &raw_firs[i], &all, Ghost(cur));
            proof {
                let sub = frs.subrange(0, i + 1);
                assert(sub.drop_last() =~= frs.subrange(0, i as int));
                assert(sub.last() == raw_firs@[i as int]);
            }
            i = i + 1;
        }
        assert(frs.subrange(0, i as int) =~= frs);
        if errors.len() > 0 {
            return Err(errors);
        }
        let n = Network { firs, positions, stations };
        assert(n@.stations == station_views(stations@));
        Ok(n)
    }

    fn position_index(&self, id: &[char], idv: Ghost<Seq<char>>) -> (r: Option<usize>)
        requires
            id@ == idv@,
        ensures
            match r {
                Some(i) => i < self@.positions.len() && self@.positions[i as int].id == idv@,
                None => !has_position(self@.positions, idv@),
            },
    {
        let mut i: usize = 0;
        while i < self.positions.len()
            invariant
                i <= self.positions.len(),
                id@ == idv@,
                forall|j: int| 0 <= j < i ==> self@.positions[j].id != idv@,
            decreases self.positions.len() - i,
        {
            let pc = str_chars(self.positions[i].id.as_str());
            if chars_eq(&pc, id) {
                return Some(i);
            }
            i = i + 1;
        }
        None
    }

    /// The regions of the network, in the order they were taken.
    pub fn firs(&self) -> (r: &Vec<FlightInformationRegion>)
        ensures
            r@.map_values(|f: FlightInformationRegion| f.id@) == self@.fir_ids,
            r@.map_values(|f: FlightInformationRegion| f@) == self@.firs,
    {
        &self.firs
    }

    /// The stations of the network, sorted by identifier.
    pub fn stations(&self) -> (r: &Vec<Station>)
        ensures
            r@.map_values(|s: Station| s@) == self@.stations,
            stations_sorted(self@.stations),
    {
        proof {
            use_type_invariant(self);
        }
        &self.stations
    }

    /// The positions of the network, sorted by identifier.
    pub fn positions(&self) -> (r: &Vec<Position>)
        ensures
            r@.map_values(|p: Position| p@) == self@.positions,
            positions_sorted(self@.positions),
    {
        proof {
            use_type_invariant(self);
        }
        &self.positions
    }

    /// Whether the network has a position with the identifier `id`.
    pub fn has_position(&self, id: &PositionId) -> (r: bool)
        ensures
            r == has_position(self@.positions, id@),
    {
        let c = str_chars(id.as_str());
        self.position_index(c.as_slice(), Ghost(id@)).is_some()
    }

    /// The position with the identifier `id`, if any.
    pub fn get_position(&self, id: &PositionId) -> (r: Option<&Position>)
        ensures
            match position_of(self@.positions, id@) {
                None => r is None,
                Some(p) => r matches Some(q) && q@ == p,
            },
    {
        proof {
            use_type_invariant(self);
        }
        let c = str_chars(id.as_str());
        match self.position_index(c.as_slice(), Ghost(id@)) {
            Some(i) => {
                proof {
                    self.lemma_unique_position(i as int, id@);
                }
                Some(&self.positions[i])
            },
            None => None,
        }
    }

    proof fn lemma_unique_position(&self, i: int, id: Seq<char>)
        requires
            positions_sorted(self@.positions),
            0 <= i < self@.positions.len(),
            self@.positions[i].id == id,
        ensures
            position_of(self@.positions, id) == Some(self@.positions[i]),
    {
        let ps = self@.positions;
        let k = choose|k: int| 0 <= k < ps.len() && ps[k].id == id;
        if k < i {
            assert(seq_lt(ps[k].id, ps[i].id));
            lemma_seq_lt_irreflexive(id);
        } else if i < k {
            assert(seq_lt(ps[i].id, ps[k].id));
            lemma_seq_lt_irreflexive(id);
        }
    }

    proof fn lemma_unique_station(&self, i: int, id: Seq<char>)
        requires
            stations_sorted(self@.stations),
            0 <= i < self@.stations.len(),
            self@.stations[i].id == id,
        ensures
            station_of(self@.stations, id) == Some(self@.stations[i]),
    {
        let ss = self@.stations;
        let k = choose|k: int| 0 <= k < ss.len() && ss[k].id == id;
        if k < i {
            assert(seq_lt(ss[k].id, ss[i].id));
            lemma_seq_lt_irreflexive(id);
        } else if i < k {
            assert(seq_lt(ss[i].id, ss[k].id));
            lemma_seq_lt_irreflexive(id);
        }
    }

    /// The index of the first position of `ctrl` that is online and known.
    fn first_covering_index(&self, ctrl: &Vec<PositionId>, online: &Vec<PositionId>) -> (r: Option<
        usize,
    >)
        ensures
            match first_covering(
                ctrl@.map_values(|p: PositionId| p@),
                online_set(online@),
                self@.positions,
            ) {
                None => r is None,
                Some(pid) => r matches Some(i) && i < self@.positions.len()
                    && self@.positions[i as int].id == pid,
            },
    {
        let ghost cv = ctrl@.map_values(|p: PositionId| p@);
        let mut k: usize = 0;
        assert(cv.skip(0) =~= cv);
        while k < ctrl.len()
            invariant
                k <= ctrl.len(),
                cv == ctrl@.map_values(|p: PositionId| p@),
                first_covering(cv, online_set(online@), self@.positions) == first_covering(
                    cv.skip(k as int),
                    online_set(online@),
                    self@.positions,
                ),
            decreases ctrl.len() - k,
        {
            let ghost rest = cv.skip(k as int);
            assert(rest[0] == ctrl@[k as int]@);
            assert(rest.drop_first() =~= cv.skip(k + 1));
            if contains_position(online, &ctrl[k]) {
                let c = str_chars(ctrl[k].as_str());
                match self.position_index(c.as_slice(), Ghost(ctrl@[k as int]@)) {
                    Some(i) => {
                        return Some(i);
                    },
                    None => {},
                }
            }
            k = k + 1;
        }
        assert(cv.skip(k as int).len() == 0);
        None
    }

    proof fn lemma_distinct_positions(&self, i: int, j: int)
        requires
            positions_sorted(self@.positions),
            0 <= i < self@.positions.len(),
            0 <= j < self@.positions.len(),
            i != j,
        ensures
            self@.positions[i].id != self@.positions[j].id,
    {
        if i < j {
            assert(seq_lt(self@.positions[i].id, self@.positions[j].id));
        } else {
            assert(seq_lt(self@.positions[j].id, self@.positions[i].id));
        }
        lemma_seq_lt_irreflexive(self@.positions[i].id);
    }

    /// The stations covered while the positions in `online_positions` are
    /// online, sorted by station identifier, each marked with whether
    /// `client_position_id` is the position that covers it.
    pub fn covered_stations(
        &self,
        client_position_id: Option<&PositionId>,
        online_positions: &Vec<PositionId>,
    ) -> (r: Vec<CoveredStation<'_>>)
        ensures
            r@.map_values(|c: CoveredStation| (c.station@, c.is_self_controlled)) == covered(
                self@.stations,
                self@.positions,
                online_set(online_positions@),
                match client_position_id {
                    Some(p) => Some(p@),
                    None => None,
                },
            ),
            forall|i: int, j: int|
                0 <= i < j < r@.len() ==> seq_lt((#[trigger] r@[i]).station@.id, (#[trigger] r@[j]).station@.id),
    {
        proof {
            use_type_invariant(self);
        }
        let ghost client = match client_position_id {
            Some(p) => Some(p@),
            None => None::<Seq<char>>,
        };
        let ghost online = online_set(online_positions@);
        let mut r: Vec<CoveredStation<'_>> = Vec::new();
        let mut i: usize = 0;
        assert(self@.stations.subrange(0, 0) =~= Seq::<StationView>::empty());
        while i < self.stations.len()
            invariant
                i <= self.stations.len(),
                positions_sorted(self@.positions),
                online == online_set(online_positions@),
                client == (match client_position_id {
                    Some(p) => Some(p@),
                    None => None::<Seq<char>>,
                }),
                r@.map_values(|c: CoveredStation| (c.station@, c.is_self_controlled)) == covered(
                    self@.stations.subrange(0, i as int),
                    self@.positions,
                    online,
                    client,
                ),
            decreases self.stations.len() - i,
        {
            let ghost before = r@;
            let st = &self.stations[i];
            proof {
                let sub = self@.stations.subrange(0, i + 1);
                assert(sub.drop_last() =~= self@.stations.subrange(0, i as int));
                assert(sub.last() == st@);
                assert(st@.controlled_by == st.controlled_by@.map_values(|p: PositionId| p@));
            }
            match self.first_covering_index(&st.controlled_by, online_positions) {
                Some(k) => {
                    let own = match client_position_id {
                        Some(cp) => self.positions[k].id == *cp,
                        None => false,
                    };
                    r.push(CoveredStation { station: st, is_self_controlled: own });
                    assert(r@.map_values(|c: CoveredStation| (c.station@, c.is_self_controlled)) =~=
                        before.map_values(|c: CoveredStation| (c.station@, c.is_self_controlled)).push((st@, own)));
                },
                None => {},
            }
            i = i + 1;
        }
        assert(self@.stations.subrange(0, i as int) =~= self@.stations);
        proof {
            lemma_covered_sorted(self@.stations, self@.positions, online, client);
            let cv = covered(self@.stations, self@.positions, online, client);
            assert forall|i: int, j: int| 0 <= i < j < r@.len() implies seq_lt(
                (#[trigger] r@[i]).station@.id,
                (#[trigger] r@[j]).station@.id,
            ) by {
                assert(cv[i] == (r@[i].station@, r@[i].is_self_controlled));
                assert(cv[j] == (r@[j].station@, r@[j].is_self_controlled));
            }
        }
        r
    }

    fn push_changes_of_rank(
        &self,
        r: &mut Vec<StationChange>,
        before: &Vec<PositionId>,
        after: &Vec<PositionId>,
        rank: u8,
    )
        requires
            positions_sorted(self@.positions),
        ensures
            changes_view(final(r)@) == changes_view(old(r)@) + changes_of_rank(
                self@.stations,
                self@.positions,
                online_set(before@),
                online_set(after@),
                rank as int,
            ),
    {
        let ghost start = changes_view(r@);
        let ghost b = online_set(before@);
        let ghost a = online_set(after@);
        let mut i: usize = 0;
        assert(self@.stations.subrange(0, 0) =~= Seq::<StationView>::empty());
        assert(start + Seq::<StationChangeView>::empty() =~= start);
        while i < self.stations.len()
            invariant
                i <= self.stations.len(),
                positions_sorted(self@.positions),
                b == online_set(before@),
                a == online_set(after@),
                changes_view(r@) == start + changes_of_rank(
                    self@.stations.subrange(0, i as int),
                    self@.positions,
                    b,
                    a,
                    rank as int,
                ),
            decreases self.stations.len() - i,
        {
            let ghost prev = r@;
            let st = &self.stations[i];
            let ghost sub = self@.stations.subrange(0, i + 1);
            proof {
                assert(sub.drop_last() =~= self@.stations.subrange(0, i as int));
                assert(sub.last() == st@);
                assert(st@.controlled_by == st.controlled_by@.map_values(|p: PositionId| p@));
            }
            let bi = self.first_covering_index(&st.controlled_by, before);
            let ai = self.first_covering_index(&st.controlled_by, after);
            let ghost ch = station_change(st@, self@.positions, b, a);
            let same = match (bi, ai) {
                (Some(x), Some(y)) => {
                    proof {
                        if x != y {
                            self.lemma_distinct_positions(x as int, y as int);
                        }
                    }
                    x == y
                },
                (None, None) => true,
                _ => false,
            };
            if !same {
                match (bi, ai) {
                    (None, Some(y)) => {
                        if rank == 0 {
                            r.push(StationChange::Online {
                                station_id: st.id.clone(),
                                position_id: self.positions[y].id.clone(),
                            });
                        }
                    },
                    (Some(_), None) => {
                        if rank == 2 {
                            r.push(StationChange::Offline { station_id: st.id.clone() });
                        }
                    },
                    (Some(x), Some(y)) => {
                        if rank == 1 {
                            r.push(StationChange::Handoff {
                                station_id: st.id.clone(),
                                from_position_id: self.positions[x].id.clone(),
                                to_position_id: self.positions[y].id.clone(),
                            });
                        }
                    },
                    (None, None) => {},
                }
            }
            proof {
                if changes_view(r@).len() != changes_view(prev).len() {
                    assert(changes_view(r@) =~= changes_view(prev).push(r@.last()@));
                } else {
                    assert(changes_view(r@) =~= changes_view(prev));
                }
                assert(start + changes_of_rank(sub, self@.positions, b, a, rank as int) =~= changes_view(r@));
            }
            i = i + 1;
        }
        assert(self@.stations.subrange(0, i as int) =~= self@.stations);
    }

    /// The station changes that follow when the online positions go from
    /// those in `before` to those in `after`: for every station whose covering
    /// position changes, `Online`, `Handoff` or `Offline`, sorted by kind and
    /// then by station.
    pub fn coverage_diff(&self, before: &Vec<PositionId>, after: &Vec<PositionId>) -> (r: Vec<
        StationChange,
    >)
        ensures
            changes_view(r@) == all_changes(
                self@.stations,
                self@.positions,
                online_set(before@),
                online_set(after@),
            ),
            changes_in_order(changes_view(r@)),
            stations_once(changes_view(r@)),
    {
        proof {
            use_type_invariant(self);
            lemma_changes_sorted(self@.stations, self@.positions, online_set(before@), online_set(after@));
        }
        let mut r: Vec<StationChange> = Vec::new();
        assert(changes_view(r@) =~= Seq::<StationChangeView>::empty());
        self.push_changes_of_rank(&mut r, before, after, 0);
        self.push_changes_of_rank(&mut r, before, after, 1);
        self.push_changes_of_rank(&mut r, before, after, 2);
        proof {
            let ss = self@.stations;
            let ps = self@.positions;
            let b = online_set(before@);
            let a = online_set(after@);
            assert(changes_view(r@) =~= changes_of_rank(ss, ps, b, a, 0) + changes_of_rank(ss, ps, b, a, 1)
                + changes_of_rank(ss, ps, b, a, 2));
        }
        r
    }

    /// The station changes that follow when `position_id` connects or
    /// disconnects while the positions in `online_positions` are online:
    /// nothing when the position is already online (connecting) or not online
    /// (disconnecting); otherwise, for every station whose covering position
    /// changes, `Online`, `Handoff` or `Offline`, sorted by kind and then by
    /// station.
    pub fn coverage_changes(
        &self,
        position_id: &PositionId,
        change: PositionChange,
        online_positions: &Vec<PositionId>,
    ) -> (r: Vec<StationChange>)
        ensures
            ({
                let before = online_set(online_positions@);
                if change == PositionChange::Disconnected {
                    if !before.contains(position_id@) {
                        r@.len() == 0
                    } else {
                        changes_view(r@) == all_changes(
                            self@.stations,
                            self@.positions,
                            before,
                            before.remove(position_id@),
                        )
                    }
                } else {
                    if before.contains(position_id@) {
                        r@.len() == 0
                    } else {
                        changes_view(r@) == all_changes(
                            self@.stations,
                            self@.positions,
                            before,
                            before.insert(position_id@),
                        )
                    }
                }
            }),
            changes_in_order(changes_view(r@)),
            stations_once(changes_view(r@)),
    {
        proof {
            use_type_invariant(self);
            let before = online_set(online_positions@);
            lemma_changes_sorted(self@.stations, self@.positions, before, before.remove(position_id@));
            lemma_changes_sorted(self@.stations, self@.positions, before, before.insert(position_id@));
        }
        let ghost before = online_set(online_positions@);
        let present = contains_position(online_positions, position_id);
        let mut updated: Vec<PositionId> = Vec::new();
        if change == PositionChange::Disconnected {
            if !present {
                return Vec::new();
            }
            let mut i: usize = 0;
            while i < online_positions.len()
                invariant
                    i <= online_positions.len(),
                    forall|s: Seq<char>| online_set(updated@).contains(s) <==> (s != position_id@
                        && exists|j: int| 0 <= j < i && online_positions@[j]@ == s),
                decreases online_positions.len() - i,
            {
                let ghost prev = updated@;
                if online_positions[i] != *position_id {
                    updated.push(online_positions[i].clone());
                }
                proof {
                    assert forall|s: Seq<char>| online_set(updated@).contains(s) <==> (s != position_id@
                        && exists|j: int| 0 <= j < i + 1 && online_positions@[j]@ == s) by {
                        if online_set(updated@).contains(s) {
                            let q = choose|q: int| 0 <= q < updated@.len() && updated@[q]@ == s;
                            if q < prev.len() {
                                assert(online_set(prev).contains(s));
                            }
                        }
                        if s != position_id@ && exists|j: int| 0 <= j < i + 1 && online_positions@[j]@ == s {
                            let j = choose|j: int| 0 <= j < i + 1 && online_positions@[j]@ == s;
                            if j < i {
                                assert(online_set(prev).contains(s));
                                let q = choose|q: int| 0 <= q < prev.len() && prev[q]@ == s;
                                assert(updated@[q]@ == s);
                            } else {
                                assert(updated@[updated@.len() - 1]@ == s);
                            }
                        }
                    }
                }
                i = i + 1;
            }
            assert(online_set(updated@) =~= before.remove(position_id@));
        } else {
            if present {
                return Vec::new();
            }
            let mut i: usize = 0;
            while i < online_positions.len()
                invariant
                    i <= online_positions.len(),
                    updated@.len() == i,
                    forall|j: int| 0 <= j < i ==> updated@[j]@ == online_positions@[j]@,
                decreases online_positions.len() - i,
            {
                updated.push(online_positions[i].clone());
                i = i + 1;
            }
            updated.push(position_id.clone());
            assert forall|s: Seq<char>| online_set(updated@).contains(s) <==> before.insert(position_id@).contains(s) by {
                if online_set(updated@).contains(s) {
                    let q = choose|q: int| 0 <= q < updated@.len() && updated@[q]@ == s;
                    if q < online_positions@.len() {
                        assert(before.contains(s));
                    }
                }
                if before.contains(s) {
                    let q = choose|q: int| 0 <= q < online_positions@.len() && online_positions@[q]@ == s;
                    assert(updated@[q]@ == s);
                }
                if s == position_id@ {
                    assert(updated@[updated@.len() - 1]@ == s);
                }
            }
            assert(online_set(updated@) =~= before.insert(position_id@));
        }
        let mut r: Vec<StationChange> = Vec::new();
        assert(changes_view(r@) =~= Seq::<StationChangeView>::empty());
        self.push_changes_of_rank(&mut r, online_positions, &updated, 0);
        self.push_changes_of_rank(&mut r, online_positions, &updated, 1);
        self.push_changes_of_rank(&mut r, online_positions, &updated, 2);
        proof {
            let ss = self@.stations;
            let ps = self@.positions;
            let a = online_set(updated@);
            assert(changes_view(r@) =~= changes_of_rank(ss, ps, before, a, 0) + changes_of_rank(ss, ps, before, a, 1)
                + changes_of_rank(ss, ps, before, a, 2));
        }
        r
    }

    /// The positions that a controller with `callsign`, `frequency` and
    /// `facility_type` may be logged in as. The callsign is normalized first
    /// (the relief form `__` read as `_`, ASCII letters upper-cased). When a
    /// position with exactly that identifier is on the frequency with the
    /// facility type, it is the only result; otherwise the result is every
    /// position on the frequency with the facility type that has a prefix
    /// starting the callsign, sorted by identifier.
    pub fn find_positions(&self, callsign: &str, frequency: &str, facility_type: FacilityType) -> (r:
        Vec<&Position>)
        ensures
            r@.map_values(|p: &Position| p@) == matching_positions(
                self@.positions,
                callsign@,
                frequency@,
                facility_type,
            ),
            positions_sorted(r@.map_values(|p: &Position| p@)),
    {
        proof {
            use_type_invariant(self);
            reveal_strlit("__");
            lemma_matching_sorted(self@.positions, callsign@, frequency@, facility_type);
        }
        let relief = str_replace(callsign, "__", "_");
        let normalized = str_to_ascii_uppercase(relief.as_str());
        let ghost c = normalized_callsign(callsign@);
        let nc = str_chars(normalized.as_str());
        let freq = frequency.to_owned();
        match self.position_index(nc.as_slice(), Ghost(c)) {
            Some(i) => {
                proof {
                    self.lemma_unique_position(i as int, c);
                }
                let p = &self.positions[i];
                if p.frequency == freq && p.facility_type == facility_type {
                    let r = vec![p];
                    assert(r@.map_values(|p: &Position| p@) =~= seq![p@]);
                    return r;
                }
            },
            None => {},
        }
        let mut r: Vec<&Position> = Vec::new();
        let mut i: usize = 0;
        assert(self@.positions.subrange(0, 0) =~= Seq::<PositionView>::empty());
        while i < self.positions.len()
            invariant
                i <= self.positions.len(),
                nc@ == c,
                freq@ == frequency@,
                r@.map_values(|p: &Position| p@) == prefix_matches(
                    self@.positions.subrange(0, i as int),
                    c,
                    frequency@,
                    facility_type,
                ),
            decreases self.positions.len() - i,
        {
            let ghost prev = r@;
            let p = &self.positions[i];
            let ghost sub = self@.positions.subrange(0, i + 1);
            proof {
                assert(sub.drop_last() =~= self@.positions.subrange(0, i as int));
                assert(sub.last() == p@);
            }
            if p.frequency == freq && p.facility_type == facility_type {
                let mut any = false;
                let mut k: usize = 0;
                while k < p.prefixes.len()
                    invariant
                        k <= p.prefixes.len(),
                        nc@ == c,
                        any == exists|q: int| 0 <= q < k && starts_with(c, #[trigger] p@.prefixes[q]),
                    decreases p.prefixes.len() - k,
                {
                    let pc = str_chars(p.prefixes[k].as_str());
                    assert(p@.prefixes[k as int] == pc@);
                    if chars_start_with(&nc, &pc) {
                        any = true;
                    }
                    k = k + 1;
                }
                if any {
                    r.push(p);
                }
            }
            proof {
                if r@.len() != prev.len() {
                    assert(r@.map_values(|p: &Position| p@) =~= prev.map_values(|p: &Position| p@).push(p@));
                } else {
                    assert(r@.map_values(|p: &Position| p@) =~= prev.map_values(|p: &Position| p@));
                }
            }
            i = i + 1;
        }
        assert(self@.positions.subrange(0, i as int) =~= self@.positions);
        r
    }

    /// The position that covers the station `station_id` while the positions
    /// in `online_positions` are online: the first position in the station's
    /// list that is online and known to the network. `None` for an unknown
    /// station or one without an online position.
    pub fn controlling_position(
        &self,
        station_id: &StationId,
        online_positions: &Vec<PositionId>,
    ) -> (r: Option<&Position>)
        ensures
            match controlling(self@, station_id@, online_set(online_positions@)) {
                None => r is None,
                Some(pid) => r matches Some(p) && p@.id == pid && Some(p@) == position_of(
                    self@.positions,
                    pid,
                ),
            },
    {
        proof {
            use_type_invariant(self);
        }
        let mut i: usize = 0;
        while i < self.stations.len()
            invariant
                i <= self.stations.len(),
                stations_sorted(self@.stations),
                positions_sorted(self@.positions),
                forall|j: int| 0 <= j < i ==> self@.stations[j].id != station_id@,
            decreases self.stations.len() - i,
        {
            if self.stations[i].id == *station_id {
                proof {
                    self.lemma_unique_station(i as int, station_id@);
                }
                return match self.first_covering_index(&self.stations[i].controlled_by, online_positions) {
                    Some(k) => {
                        proof {
                            self.lemma_unique_position(k as int, self@.positions[k as int].id);
                        }
                        Some(&self.positions[k])
                    },
                    None => None,
                };
            }
            i = i + 1;
        }
        None
    }
}

/// Whether two character lists are equal.
pub fn chars_eq(a: &[char], b: &[char]) -> (r: bool)
    ensures
        r == (a@ == b@),
{
    if a.len() != b.len() {
        return false;
    }
    let mut i: usize = 0;
    while i < a.len()
        invariant
            a.len() == b.len(),
            i <= a.len(),
            forall|j: int| 0 <= j < i ==> a@[j] == b@[j],
        decreases a.len() - i,
    {
        if a[i] != b[i] {
            return false;
        }
        i = i + 1;
    }
    assert(a@ =~= b@);
    true
}

} // verus!
