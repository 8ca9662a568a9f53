//! The connected clients, the positions they control and the stations those
//! positions cover, as the server tracks them.
//!
//! Stations covered only by positions that are online on VATSIM without a
//! vacs client (VATSIM-only positions) cannot be called; clients are not told
//! of them.
pub mod manager;

use crate::ids::{ClientId, PositionId, ProfileId, StationId};
use crate::protocol::{changes_view, StationChange, StationChangeView};
use vstd::prelude::*;

verus! {

/// What the server tells clients of a connected client.
#[derive(Debug)]
pub struct ClientInfo {
    pub id: ClientId,
    pub position_id: Option<PositionId>,
    pub display_name: String,
    pub frequency: String,
}

/// The mathematical content of a [`ClientInfo`].
pub struct ClientInfoView {
    pub id: Seq<char>,
    pub position_id: Option<Seq<char>>,
    pub display_name: Seq<char>,
    pub frequency: Seq<char>,
}

impl View for ClientInfo {
    type V = ClientInfoView;

    open spec fn view(&self) -> ClientInfoView {
        ClientInfoView {
            id: self.id@,
            position_id: match self.position_id {
                Some(p) => Some(p@),
                None => None,
            },
            display_name: self.display_name@,
            frequency: self.frequency@,
        }
    }
}

impl Clone for ClientInfo {
    fn clone(&self) -> (r: Self)
        ensures
            r@ == self@,
    {
        ClientInfo {
            id: self.id.clone(),
            position_id: match &self.position_id {
                Some(p) => Some(p.clone()),
                None => None,
            },
            display_name: self.display_name.clone(),
            frequency: self.frequency.clone(),
        }
    }
}

/// The profile that a client has selected, which decides which station
/// changes it is told of.
#[derive(Debug)]
pub enum ActiveProfile {
    /// A profile of the coverage data.
    Specific(ProfileId),
    /// A selection that the client makes itself.
    Custom,
    /// No profile is active: the client hears of no station.
    Inactive,
}

/// The mathematical content of an [`ActiveProfile`].
pub enum ActiveProfileView {
    Specific(Seq<char>),
    Custom,
    Inactive,
}

impl View for ActiveProfile {
    type V = ActiveProfileView;

    open spec fn view(&self) -> ActiveProfileView {
        match self {
            ActiveProfile::Specific(id) => ActiveProfileView::Specific(id@),
            ActiveProfile::Custom => ActiveProfileView::Custom,
            ActiveProfile::Inactive => ActiveProfileView::Inactive,
        }
    }
}

impl Clone for ActiveProfile {
    fn clone(&self) -> (r: Self)
        ensures
            r@ == self@,
    {
        match self {
            ActiveProfile::Specific(id) => ActiveProfile::Specific(id.clone()),
            ActiveProfile::Custom => ActiveProfile::Custom,
            ActiveProfile::Inactive => ActiveProfile::Inactive,
        }
    }
}

/// The stations whose changes a client is told of.
#[derive(Debug)]
pub enum RelevantStations {
    All,
    Subset(Vec<StationId>),
    NoStations,
}

/// The stations that the profile `id` calls, by the first entry of
/// `entries` for that profile, if there is one.
pub open spec fn profile_stations_of(entries: Seq<(ProfileId, Vec<StationId>)>, id: Seq<char>) -> Option<
    Seq<Seq<char>>,
>
    decreases entries.len(),
{
    if entries.len() == 0 {
        None
    } else if entries[0].0@ == id {
        Some(entries[0].1@.map_values(|s: StationId| s@))
    } else {
        profile_stations_of(entries.subrange(1, entries.len() as int), id)
    }
}

/// A copy of the station identifiers `v`.
fn copy_stations(v: &Vec<StationId>) -> (r: Vec<StationId>)
    ensures
        r@.map_values(|s: StationId| s@) == v@.map_values(|s: StationId| s@),
{
    let mut r: Vec<StationId> = Vec::new();
    let mut i: usize = 0;
    while i < v.len()
        invariant
            i <= v.len(),
            r@.map_values(|s: StationId| s@) == v@.subrange(0, i as int).map_values(|s: StationId| s@),
        decreases v.len() - i,
    {
        r.push(v[i].clone());
        assert(v@.subrange(0, i + 1).map_values(|s: StationId| s@) =~= v@.subrange(0, i as int).map_values(
            |s: StationId| s@,
        ).push(v@[i as int]@));
        assert(r@.map_values(|s: StationId| s@) =~= v@.subrange(0, i + 1).map_values(|s: StationId| s@));
        i = i + 1;
    }
    assert(v@.subrange(0, i as int) =~= v@);
    r
}

/// The stations whose changes a client with the profile `profile` is told
/// of, where `profile_stations` lists the stations that each profile of the
/// coverage data calls: every station for a custom selection, none without a
/// profile, and for a profile of the coverage data the stations it calls, or
/// none where the profile is not known.
pub fn relevant_stations(profile: &ActiveProfile, profile_stations: &Vec<(ProfileId, Vec<StationId>)>) -> (r:
    RelevantStations)
    ensures
        match profile@ {
            ActiveProfileView::Custom => r is All,
            ActiveProfileView::Inactive => r is NoStations,
            ActiveProfileView::Specific(id) => match profile_stations_of(profile_stations@, id) {
                Some(ids) => (r matches RelevantStations::Subset(v) && v@.map_values(|s: StationId| s@) == ids),
                None => r is NoStations,
            },
        },
{
    match profile {
        ActiveProfile::Custom => RelevantStations::All,
        ActiveProfile::Inactive => RelevantStations::NoStations,
        ActiveProfile::Specific(id) => {
            let ghost es = profile_stations@;
            let n = profile_stations.len();
            let mut i: usize = 0;
            assert(es.subrange(0, n as int) =~= es);
            while i < n
                invariant
                    i <= n,
                    n == es.len(),
                    es == profile_stations@,
                    profile@ == ActiveProfileView::Specific(id@),
                    profile_stations_of(es, id@) == profile_stations_of(es.subrange(i as int, n as int), id@),
                decreases n - i,
            {
                let ghost rest = es.subrange(i as int, n as int);
                assert(rest[0] == es[i as int]);
                assert(rest.subrange(1, rest.len() as int) =~= es.subrange(i + 1, n as int));
                if profile_stations[i].0 == *id {
                    let v = copy_stations(&profile_stations[i].1);
                    assert(profile_stations_of(rest, id@) == Some(
                        es[i as int].1@.map_values(|s: StationId| s@),
                    ));
                    return RelevantStations::Subset(v);
                }
                i = i + 1;
            }
            RelevantStations::NoStations
        },
    }
}

/// A station, as listed to a client: whether the client's own position
/// covers it.
#[derive(Debug)]
pub struct StationInfo {
    pub id: StationId,
    pub own: bool,
}

/// Why a client was disconnected by the server.
#[derive(Debug)]
pub enum DisconnectReason {
    Terminated,
    NoActiveVatsimConnection,
    AmbiguousVatsimPosition(Vec<PositionId>),
}

/// Why the client manager refused a request.
#[derive(Debug)]
pub enum ClientManagerError {
    /// A client with this identifier is connected already.
    DuplicateClient(String),
    /// A message could not be handed to a client.
    MessageSendError(String),
}

/// The change, if any, that clients see of the change `c` when the positions
/// in `online` have vacs clients: changes at VATSIM-only positions are hidden,
/// a handoff to one reads as the station going offline, a handoff from one as
/// the station coming online, and every `Offline` is shown.
pub open spec fn visible_change(c: StationChangeView, online: Set<Seq<char>>) -> Option<
    StationChangeView,
> {
    match c {
        StationChangeView::Online { position_id, .. } => if online.contains(position_id) {
            Some(c)
        } else {
            None
        },
        StationChangeView::Handoff { station_id, from_position_id, to_position_id } => {
            let from_vacs = online.contains(from_position_id);
            let to_vacs = online.contains(to_position_id);
            if from_vacs && to_vacs {
                Some(c)
            } else if from_vacs {
                Some(StationChangeView::Offline { station_id })
            } else if to_vacs {
                Some(StationChangeView::Online { station_id, position_id: to_position_id })
            } else {
                None
            }
        },
        StationChangeView::Offline { .. } => Some(c),
    }
}

/// The changes that clients see of `cs`, in order.
pub open spec fn visible_changes(cs: Seq<StationChangeView>, online: Set<Seq<char>>) -> Seq<
    StationChangeView,
>
    decreases cs.len(),
{
    if cs.len() == 0 {
        Seq::empty()
    } else {
        let rest = visible_changes(cs.drop_last(), online);
        match visible_change(cs.last(), online) {
            Some(v) => rest.push(v),
            None => rest,
        }
    }
}

/// Every change that clients see of a position is of a position with vacs
/// clients: an `Online` names such a position, and a `Handoff` goes between
/// two of them.
pub proof fn lemma_visible_changes_name_vacs_positions(
    cs: Seq<StationChangeView>,
    online: Set<Seq<char>>,
)
    ensures
        forall|i: int|
            0 <= i < visible_changes(cs, online).len() ==> match #[trigger] visible_changes(
                cs,
                online,
            )[i] {
                StationChangeView::Online { position_id, .. } => online.contains(position_id),
                StationChangeView::Handoff { from_position_id, to_position_id, .. } => online.contains(
                    from_position_id,
                ) && online.contains(to_position_id),
                StationChangeView::Offline { .. } => true,
            },
    decreases cs.len(),
{
    if cs.len() > 0 {
        lemma_visible_changes_name_vacs_positions(cs.drop_last(), online);
    }
}

/// Clients see one change at most for each change, in the same order: never
/// more changes than there are.
pub proof fn lemma_visible_changes_len(cs: Seq<StationChangeView>, online: Set<Seq<char>>)
    ensures
        visible_changes(cs, online).len() <= cs.len(),
    decreases cs.len(),
{
    if cs.len() > 0 {
        lemma_visible_changes_len(cs.drop_last(), online);
    }
}

/// The covering position of each online station after the change `c`.
pub open spec fn station_after(m: Map<Seq<char>, Seq<char>>, c: StationChangeView) -> Map<
    Seq<char>,
    Seq<char>,
> {
    match c {
        StationChangeView::Online { station_id, position_id } => m.insert(station_id, position_id),
        StationChangeView::Handoff { station_id, to_position_id, .. } => m.insert(
            station_id,
            to_position_id,
        ),
        StationChangeView::Offline { station_id } => m.remove(station_id),
    }
}

/// The covering position of each online station after the changes `cs`, in
/// order.
pub open spec fn stations_after(m: Map<Seq<char>, Seq<char>>, cs: Seq<StationChangeView>) -> Map<
    Seq<char>,
    Seq<char>,
>
    decreases cs.len(),
{
    if cs.len() == 0 {
        m
    } else {
        station_after(stations_after(m, cs.drop_last()), cs.last())
    }
}

/// The changes of `cs` that concern a station in `ids`, in order.
pub open spec fn changes_in(cs: Seq<StationChangeView>, ids: Set<Seq<char>>) -> Seq<
    StationChangeView,
>
    decreases cs.len(),
{
    if cs.len() == 0 {
        Seq::empty()
    } else {
        let rest = changes_in(cs.drop_last(), ids);
        if ids.contains(cs.last().station()) {
            rest.push(cs.last())
        } else {
            rest
        }
    }
}

/// The changes of `cs` that a client with the relevant stations `relevant` is
/// told of.
pub open spec fn relevant_changes(cs: Seq<StationChangeView>, relevant: RelevantStations) -> Seq<
    StationChangeView,
> {
    match relevant {
        RelevantStations::All => cs,
        RelevantStations::Subset(ids) => changes_in(cs, ids@.map_values(|s: StationId| s@).to_set()),
        RelevantStations::NoStations => Seq::empty(),
    }
}

/// Whether a station is in `v`.
fn has_station_id(v: &Vec<StationId>, id: &StationId) -> (r: bool)
    ensures
        r == v@.map_values(|s: StationId| s@).to_set().contains(id@),
{
    let mut i: usize = 0;
    while i < v.len()
        invariant
            0 <= i <= v.len(),
            forall|j: int| 0 <= j < i ==> v@[j]@ != id@,
        decreases v.len() - i,
    {
        if v[i] == *id {
            assert(v@.map_values(|s: StationId| s@)[i as int] == id@);
            return true;
        }
        i = i + 1;
    }
    assert(!v@.map_values(|s: StationId| s@).contains(id@)) by {
        if v@.map_values(|s: StationId| s@).contains(id@) {
            let ids = v@.map_values(|s: StationId| s@);
            let j = choose|j: int| 0 <= j < ids.len() && #[trigger] ids[j] == id@;
            assert(v@[j]@ == id@);
        }
    }
    false
}

/// The changes of `changes` that a client with the relevant stations
/// `relevant` is told of.
pub fn changes_for(relevant: &RelevantStations, changes: &Vec<StationChange>) -> (r: Vec<
    StationChange,
>)
    ensures
        changes_view(r@) == relevant_changes(changes_view(changes@), *relevant),
{
    match relevant {
        RelevantStations::All => {
            let mut r: Vec<StationChange> = Vec::new();
            let mut i: usize = 0;
            while i < changes.len()
                invariant
                    0 <= i <= changes@.len(),
                    changes_view(r@) == changes_view(changes@).subrange(0, i as int),
                decreases changes@.len() - i,
            {
                let ghost prev = r@;
                r.push(changes[i].clone());
                assert(changes_view(r@) =~= changes_view(prev).push(changes@[i as int]@));
                assert(changes_view(r@) =~= changes_view(changes@).subrange(0, i + 1));
                i = i + 1;
            }
            assert(changes_view(changes@).subrange(0, changes@.len() as int) =~= changes_view(
                changes@,
            ));
            r
        },
        RelevantStations::Subset(ids) => {
            let ghost set = ids@.map_values(|s: StationId| s@).to_set();
            let mut r: Vec<StationChange> = Vec::new();
            let mut i: usize = 0;
            assert(changes_view(changes@).subrange(0, 0) =~= Seq::<StationChangeView>::empty());
            while i < changes.len()
                invariant
                    0 <= i <= changes@.len(),
                    set == ids@.map_values(|s: StationId| s@).to_set(),
                    changes_view(r@) == changes_in(
                        changes_view(changes@).subrange(0, i as int),
                        set,
                    ),
                decreases changes@.len() - i,
            {
                let ghost sub = changes_view(changes@).subrange(0, i + 1);
                proof {
                    assert(sub.drop_last() =~= changes_view(changes@).subrange(0, i as int));
                    assert(sub.last() == changes@[i as int]@);
                }
                let station = match &changes[i] {
                    StationChange::Online { station_id, .. } => station_id,
                    StationChange::Handoff { station_id, .. } => station_id,
                    StationChange::Offline { station_id } => station_id,
                };
                if has_station_id(ids, station) {
                    r.push(changes[i].clone());
                    assert(changes_view(r@) =~= changes_in(sub, set));
                }
                i = i + 1;
            }
            assert(changes_view(changes@).subrange(0, changes@.len() as int) =~= changes_view(
                changes@,
            ));
            r
        },
        RelevantStations::NoStations => {
            let r: Vec<StationChange> = Vec::new();
            assert(changes_view(r@) =~= Seq::<StationChangeView>::empty());
            r
        },
    }
}

} // verus!
