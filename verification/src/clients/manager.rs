//! The client manager: the connected clients, the positions with vacs
//! clients, the positions online on VATSIM only, and the covering position of
//! each online station.
use crate::clients::{
    DisconnectReason,
    stations_after,
    visible_changes,
    ActiveProfile,
    ActiveProfileView,
    ClientInfo,
    ClientInfoView,
    ClientManagerError,
    RelevantStations,
    StationInfo,
};
use crate::coverage::network::{all_changes, contains_position, online_set, Network, NetworkView};
use crate::coverage::position::Position;
use crate::facility::{ControllerInfo, FacilityType};
use crate::ids::{ClientId, PositionId, ProfileId, StationId};
use crate::keyed::{
    keys_unique,
    lemma_to_map_dom,
    lemma_to_map_index,
    lemma_to_map_push,
    lemma_to_map_remove,
    to_map,
};
use crate::protocol::{changes_view, PositionChange, StationChange, StationChangeView};
use crate::coverage::assembly::lemma_insert_to_set;
use crate::text::{lemma_seq_lt_total, lemma_seq_lt_transitive, seq_lt, str_lt};
use crate::sets::{
    client_set,
    clients_distinct,
    insert_client,
    lemma_client_set_len,
    remove_client,
};
use vstd::prelude::*;

verus! {

/// A connected client: what is known of it and its active profile.
#[derive(Debug)]
pub struct ClientSession {
    info: ClientInfo,
    active_profile: ActiveProfile,
}

/// The mathematical content of a [`ClientSession`].
pub struct SessionView {
    pub info: ClientInfoView,
    pub profile: ActiveProfileView,
}

impl View for ClientSession {
    type V = SessionView;

    closed spec fn view(&self) -> SessionView {
        SessionView { info: self.info@, profile: self.active_profile@ }
    }
}

impl Clone for ClientSession {
    fn clone(&self) -> (r: Self)
        ensures
            r@ == self@,
    {
        ClientSession { info: self.info.clone(), active_profile: self.active_profile.clone() }
    }
}

impl ClientSession {
    /// A session for the client `info` with the profile `active_profile`.
    pub fn new(info: ClientInfo, active_profile: ActiveProfile) -> (r: Self)
        ensures
            r@ == (SessionView { info: info@, profile: active_profile@ }),
    {
        ClientSession { info, active_profile }
    }

    /// The client's identifier.
    pub fn id(&self) -> (r: &ClientId)
        ensures
            r@ == self@.info.id,
    {
        &self.info.id
    }

    /// What is known of the client.
    pub fn client_info(&self) -> (r: &ClientInfo)
        ensures
            r@ == self@.info,
    {
        &self.info
    }

    /// The position that the client controls, if any.
    pub fn position_id(&self) -> (r: Option<&PositionId>)
        ensures
            match self@.info.position_id {
                Some(p) => r matches Some(q) && q@ == p,
                None => r is None,
            },
    {
        match &self.info.position_id {
            Some(p) => Some(p),
            None => None,
        }
    }

    /// The client's active profile.
    pub fn active_profile(&self) -> (r: &ActiveProfile)
        ensures
            r@ == self@.profile,
    {
        &self.active_profile
    }

    /// Takes the callsign, as display name, and the frequency of `controller`;
    /// reports whether either changed.
    pub fn update_client_info(&mut self, controller: &ControllerInfo) -> (r: bool)
        ensures
            r == info_outdated(old(self)@.info, *controller),
            final(self)@ == (SessionView {
                info: ClientInfoView {
                    display_name: controller.callsign@,
                    frequency: controller.frequency@,
                    ..old(self)@.info
                },
                ..old(self)@
            }),
    {
        let changed = self.info.display_name != controller.callsign || self.info.frequency
            != controller.frequency;
        self.info.display_name = controller.callsign.clone();
        self.info.frequency = controller.frequency.clone();
        changed
    }

    /// Sets the position that the client controls.
    pub fn set_position_id(&mut self, position_id: Option<PositionId>)
        ensures
            final(self)@ == (SessionView {
                info: ClientInfoView {
                    position_id: match position_id {
                        Some(p) => Some(p@),
                        None => None,
                    },
                    ..old(self)@.info
                },
                ..old(self)@
            }),
    {
        self.info.position_id = position_id;
    }

    /// Moves the client's active profile to that of a new position, which
    /// names the profile `profile_id` or none: a custom selection stays,
    /// otherwise the position's profile becomes active, or none. Returns the
    /// profile now active.
    pub fn update_active_profile(&mut self, profile_id: Option<ProfileId>) -> (r: ActiveProfile)
        ensures
            final(self)@ == (SessionView {
                profile: moved_profile(
                    old(self)@.profile,
                    match profile_id {
                        Some(p) => Some(p@),
                        None => None,
                    },
                ),
                ..old(self)@
            }),
            r@ == final(self)@.profile,
            old(self)@.profile is Custom ==> final(self)@.profile == ActiveProfileView::Custom,
            !(old(self)@.profile is Custom) ==> final(self)@.profile == match profile_id {
                Some(p) => ActiveProfileView::Specific(p@),
                None => ActiveProfileView::Inactive,
            },
    {
        let next = match &self.active_profile {
            ActiveProfile::Custom => ActiveProfile::Custom,
            _ => match profile_id {
                Some(id) => ActiveProfile::Specific(id),
                None => ActiveProfile::Inactive,
            },
        };
        self.active_profile = next.clone();
        next
    }

    /// Sets the client's active profile.
    pub fn set_active_profile(&mut self, active_profile: ActiveProfile)
        ensures
            final(self)@ == (SessionView { profile: active_profile@, ..old(self)@ }),
    {
        self.active_profile = active_profile;
    }
}

/// The display name or the frequency of `info` differ from the callsign or
/// the frequency of `controller`.
pub open spec fn info_outdated(info: ClientInfoView, controller: ControllerInfo) -> bool {
    info.display_name != controller.callsign@ || info.frequency != controller.frequency@
}

/// The clients controlling one position.
#[derive(Debug)]
struct OnlinePosition {
    position_id: PositionId,
    clients: Vec<ClientId>,
}

/// An online station and the position covering it.
#[derive(Debug)]
struct OnlineStation {
    station_id: StationId,
    position_id: PositionId,
}

spec fn client_key() -> spec_fn(ClientSession) -> Seq<char> {
    |s: ClientSession| s@.info.id
}

spec fn client_val() -> spec_fn(ClientSession) -> SessionView {
    |s: ClientSession| s@
}

spec fn position_key() -> spec_fn(OnlinePosition) -> Seq<char> {
    |e: OnlinePosition| e.position_id@
}

spec fn position_val() -> spec_fn(OnlinePosition) -> Set<Seq<char>> {
    |e: OnlinePosition| client_set(e.clients@)
}

spec fn station_key() -> spec_fn(OnlineStation) -> Seq<char> {
    |e: OnlineStation| e.station_id@
}

spec fn station_val() -> spec_fn(OnlineStation) -> Seq<char> {
    |e: OnlineStation| e.position_id@
}

/// The state of the client manager.
#[verifier::ext_equal]
pub struct ClientManagerView {
    /// The coverage data.
    pub network: NetworkView,
    /// The connected clients by identifier.
    pub clients: Map<Seq<char>, SessionView>,
    /// For each position with vacs clients, those clients.
    pub online_positions: Map<Seq<char>, Set<Seq<char>>>,
    /// For each online station, the position covering it.
    pub online_stations: Map<Seq<char>, Seq<char>>,
    /// The positions online on VATSIM without a vacs client.
    pub vatsim_only: Set<Seq<char>>,
}

/// The state after the client `info` connects with the profile `profile`, and
/// the station changes that clients are told of. A client at a position that
/// has vacs clients already joins them; a client at a position without any
/// brings the position online, which changes the covering position of
/// stations unless the position was online on VATSIM already.
pub open spec fn after_add(v: ClientManagerView, info: ClientInfoView, profile: ActiveProfileView) -> (
    ClientManagerView,
    Seq<StationChangeView>,
) {
    let v1 = ClientManagerView {
        clients: v.clients.insert(info.id, SessionView { info, profile }),
        ..v
    };
    match info.position_id {
        None => (v1, Seq::empty()),
        Some(p) => if v.online_positions.dom().contains(p) && v.online_positions[p] != Set::<
            Seq<char>,
        >::empty() {
            (
                ClientManagerView {
                    online_positions: v.online_positions.insert(
                        p,
                        v.online_positions[p].insert(info.id),
                    ),
                    ..v1
                },
                Seq::empty(),
            )
        } else {
            let all = v.online_positions.dom().union(v.vatsim_only);
            let ac = if all.contains(p) {
                Seq::empty()
            } else {
                all_changes(v.network.stations, v.network.positions, all, all.insert(p))
            };
            let ops = v.online_positions.insert(p, set![info.id]);
            (
                ClientManagerView {
                    online_positions: ops,
                    online_stations: stations_after(v.online_stations, ac),
                    ..v1
                },
                visible_changes(ac, ops.dom()),
            )
        },
    }
}

/// The state after the connected client `c` disconnects, and the station
/// changes that clients are told of. The last client at a position takes the
/// position offline; once no client is connected, the VATSIM-only positions
/// and the online stations are forgotten.
pub open spec fn after_remove(v: ClientManagerView, c: Seq<char>) -> (
    ClientManagerView,
    Seq<StationChangeView>,
) {
    let v1 = ClientManagerView { clients: v.clients.remove(c), ..v };
    let (v2, changes) = match v.clients[c].info.position_id {
        None => (v1, Seq::empty()),
        Some(p) => if !v.online_positions.dom().contains(p) {
            (v1, Seq::empty())
        } else if v.online_positions[p].len() == 1 {
            let before = v.online_positions.dom().union(v.vatsim_only);
            let ac = all_changes(v.network.stations, v.network.positions, before, before.remove(p));
            let ops = v.online_positions.remove(p);
            (
                ClientManagerView {
                    online_positions: ops,
                    online_stations: stations_after(v.online_stations, ac),
                    ..v1
                },
                visible_changes(ac, ops.dom()),
            )
        } else {
            (
                ClientManagerView {
                    online_positions: v.online_positions.insert(p, v.online_positions[p].remove(c)),
                    ..v1
                },
                Seq::empty(),
            )
        },
    };
    if v1.clients.dom().len() == 0 {
        (
            ClientManagerView {
                vatsim_only: Set::empty(),
                online_stations: Map::empty(),
                ..v2
            },
            changes,
        )
    } else {
        (v2, changes)
    }
}

/// `v` with `p` taken out.
fn without_position(v: &Vec<PositionId>, p: &PositionId) -> (r: Vec<PositionId>)
    ensures
        online_set(r@) == online_set(v@).remove(p@),
{
    let mut r: Vec<PositionId> = Vec::new();
    let mut i: usize = 0;
    while i < v.len()
        invariant
            0 <= i <= v.len(),
            forall|x: Seq<char>|
                #[trigger] online_set(r@).contains(x) <==> (x != p@ && exists|j: int|
                    0 <= j < i && v@[j]@ == x),
        decreases v.len() - i,
    {
        let ghost prev = r@;
        if v[i] != *p {
            r.push(v[i].clone());
        }
        proof {
            assert forall|x: Seq<char>|
                #[trigger] online_set(r@).contains(x) <==> (x != p@ && exists|j: int|
                    0 <= j < i + 1 && v@[j]@ == x) by {
                if online_set(r@).contains(x) {
                    let q = choose|q: int| 0 <= q < r@.len() && r@[q]@ == x;
                    if q < prev.len() {
                        assert(online_set(prev).contains(x));
                    }
                }
                if x != p@ && exists|j: int| 0 <= j < i + 1 && v@[j]@ == x {
                    let j = choose|j: int| 0 <= j < i + 1 && v@[j]@ == x;
                    if j < i {
                        assert(online_set(prev).contains(x));
                        let q = choose|q: int| 0 <= q < prev.len() && prev[q]@ == x;
                        assert(r@[q]@ == x);
                    } else {
                        assert(r@[r@.len() - 1]@ == x);
                    }
                }
            }
        }
        i = i + 1;
    }
    assert(online_set(r@) =~= online_set(v@).remove(p@));
    r
}

/// The station `sid` is listed to a client with the relevant stations
/// `relevant`: it is online, covered by a position with vacs clients, and
/// relevant.
pub open spec fn listed(v: ClientManagerView, relevant: RelevantStations, sid: Seq<char>) -> bool {
    &&& v.online_stations.dom().contains(sid)
    &&& v.online_positions.dom().contains(v.online_stations[sid])
    &&& match relevant {
        RelevantStations::All => true,
        RelevantStations::Subset(ids) => ids@.map_values(|s: StationId| s@).contains(sid),
        RelevantStations::NoStations => false,
    }
}

/// The listed station `sid` is covered by the client's own position `own`.
pub open spec fn is_own(v: ClientManagerView, own: Option<Seq<char>>, sid: Seq<char>) -> bool {
    own matches Some(p) && v.online_stations[sid] == p
}

/// A client whose position changed, its new position and its active
/// profile there.
#[derive(Debug)]
pub struct SessionUpdate {
    pub client_id: ClientId,
    pub position_id: Option<PositionId>,
    pub profile: ActiveProfile,
}

/// What a synchronisation with the VATSIM data feed decided: the clients to
/// disconnect and why, the client infos and sessions to send again, and the
/// station changes that clients are to be told of.
#[derive(Debug)]
pub struct SyncOutcome {
    pub disconnected: Vec<(ClientId, DisconnectReason)>,
    pub updated_clients: Vec<ClientInfo>,
    pub session_updates: Vec<SessionUpdate>,
    pub station_changes: Vec<StationChange>,
}

/// The first controller of `cs` with the identifier `c`.
pub open spec fn controller_of(cs: Seq<ControllerInfo>, c: Seq<char>) -> Option<ControllerInfo>
    decreases cs.len(),
{
    if cs.len() == 0 {
        None
    } else if cs[0].cid@ == c {
        Some(cs[0])
    } else {
        controller_of(cs.drop_first(), c)
    }
}

/// The controller is connected with a known facility type.
pub open spec fn is_active(ctrl: Option<ControllerInfo>) -> bool {
    ctrl matches Some(x) && x.facility_type != FacilityType::Unknown
}

/// The positions that the controller `x` may be logged in as.
pub open spec fn positions_of(net: NetworkView, x: ControllerInfo) -> Seq<crate::coverage::position::PositionView> {
    crate::coverage::network::matching_positions(
        net.positions,
        x.callsign@,
        x.frequency@,
        x.facility_type,
    )
}

/// The identifiers of the positions `ps`.
pub open spec fn position_ids_of(ps: Seq<crate::coverage::position::PositionView>) -> Seq<Seq<char>> {
    ps.map_values(|p: crate::coverage::position::PositionView| p.id)
}

/// The client `c` was found ambiguous: its controller matches several
/// positions.
pub open spec fn ambiguous(v: ClientManagerView, cs: Seq<ControllerInfo>, c: Seq<char>) -> bool {
    &&& is_active(controller_of(cs, c))
    &&& info_outdated(v.clients[c].info, controller_of(cs, c)->0)
    &&& positions_of(v.network, controller_of(cs, c)->0).len() > 1
}

/// The client `c` changed its display name or frequency, and its controller
/// matches at most one position.
pub open spec fn refreshed(v: ClientManagerView, cs: Seq<ControllerInfo>, c: Seq<char>) -> bool {
    &&& is_active(controller_of(cs, c))
    &&& info_outdated(v.clients[c].info, controller_of(cs, c)->0)
    &&& positions_of(v.network, controller_of(cs, c)->0).len() <= 1
}

/// The position that a refreshed client `c` ends up at.
pub open spec fn refreshed_position(v: ClientManagerView, cs: Seq<ControllerInfo>, c: Seq<char>) -> Option<
    Seq<char>,
> {
    let m = positions_of(v.network, controller_of(cs, c)->0);
    if m.len() == 1 {
        Some(m[0].id)
    } else {
        None
    }
}

/// The profile of the position that a refreshed client `c` ends up at, if
/// it ends up at one that names a profile.
pub open spec fn refreshed_profile_id(v: ClientManagerView, cs: Seq<ControllerInfo>, c: Seq<char>) -> Option<
    Seq<char>,
> {
    let m = positions_of(v.network, controller_of(cs, c)->0);
    if m.len() == 1 {
        m[0].profile_id
    } else {
        None
    }
}

/// The active profile of a client that moves to a position naming the
/// profile `profile_id`, if any: a custom selection stays; otherwise the
/// position's profile, or none.
pub open spec fn moved_profile(old: ActiveProfileView, profile_id: Option<Seq<char>>) -> ActiveProfileView {
    match old {
        ActiveProfileView::Custom => ActiveProfileView::Custom,
        _ => match profile_id {
            Some(id) => ActiveProfileView::Specific(id),
            None => ActiveProfileView::Inactive,
        },
    }
}

/// The session of `c` after the synchronisation, seen from the state `v`
/// before it: a refreshed client takes its controller's name and frequency,
/// and where its position changes, it takes the new position and that
/// position's profile.
pub open spec fn synced_session(v: ClientManagerView, cs: Seq<ControllerInfo>, c: Seq<char>) -> SessionView {
    let old = v.clients[c];
    let ctrl = controller_of(cs, c);
    if !is_active(ctrl) {
        old
    } else {
        let x = ctrl->0;
        let moves = refreshed(v, cs, c) && refreshed_position(v, cs, c) != old.info.position_id;
        SessionView {
            info: ClientInfoView {
                display_name: x.callsign@,
                frequency: x.frequency@,
                position_id: if refreshed(v, cs, c) {
                    refreshed_position(v, cs, c)
                } else {
                    old.info.position_id
                },
                ..old.info
            },
            profile: if moves {
                moved_profile(old.profile, refreshed_profile_id(v, cs, c))
            } else {
                old.profile
            },
        }
    }
}

/// A client that a synchronisation moves to another position takes the
/// profile that logging in at that position gives: the position's profile,
/// or none where it names none, unless the client had made a custom
/// selection, which it keeps. The position it left plays no part.
pub proof fn lemma_move_takes_login_profile(v: ClientManagerView, cs: Seq<ControllerInfo>, c: Seq<char>)
    requires
        v.clients.dom().contains(c),
        refreshed(v, cs, c),
        refreshed_position(v, cs, c) != v.clients[c].info.position_id,
    ensures
        ({
            let m = positions_of(v.network, controller_of(cs, c)->0);
            let new_pos = if m.len() == 1 {
                Some(m[0])
            } else {
                None
            };
            &&& synced_session(v, cs, c).profile == crate::login::login_profile(
                v.clients[c].profile is Custom,
                new_pos,
            )
            &&& synced_session(v, cs, c).info.position_id == match new_pos {
                Some(p) => Some(p.id),
                None => None,
            }
        }),
{
}

/// Whether `c` is marked for disconnection after the synchronisation, from
/// whether it was before.
pub open spec fn synced_pending(
    cs: Seq<ControllerInfo>,
    c: Seq<char>,
    pending: bool,
    require_active_connection: bool,
) -> bool {
    if is_active(controller_of(cs, c)) {
        false
    } else if require_active_connection {
        !pending
    } else {
        pending
    }
}

/// The reason for which the synchronisation disconnects `c`, if it does.
pub open spec fn is_disconnect_reason(
    v: ClientManagerView,
    cs: Seq<ControllerInfo>,
    c: Seq<char>,
    pending: bool,
    require_active_connection: bool,
    reason: DisconnectReason,
) -> bool {
    match reason {
        DisconnectReason::NoActiveVatsimConnection => !is_active(controller_of(cs, c))
            && require_active_connection && pending,
        DisconnectReason::AmbiguousVatsimPosition(ids) => ambiguous(v, cs, c) && ids@.map_values(
            |p: PositionId| p@,
        ) == position_ids_of(positions_of(v.network, controller_of(cs, c)->0)),
        DisconnectReason::Terminated => false,
    }
}

/// The synchronisation disconnects `c`.
pub open spec fn is_disconnected(
    v: ClientManagerView,
    cs: Seq<ControllerInfo>,
    c: Seq<char>,
    pending: bool,
    require_active_connection: bool,
) -> bool {
    (!is_active(controller_of(cs, c)) && require_active_connection && pending) || ambiguous(v, cs, c)
}

/// The positions online on VATSIM without a vacs client: those that the
/// active controllers of `cs` other than the clients `clients` match alone,
/// where they have no vacs client (`online`).
pub open spec fn vatsim_only_of(
    net: NetworkView,
    cs: Seq<ControllerInfo>,
    clients: Set<Seq<char>>,
    online: Set<Seq<char>>,
) -> Set<Seq<char>> {
    Set::new(
        |p: Seq<char>|
            exists|k: int|
                0 <= k < cs.len() && cs[k].facility_type != FacilityType::Unknown
                    && !clients.contains(#[trigger] cs[k].cid@) && positions_of(net, cs[k]).len() == 1
                    && positions_of(net, cs[k])[0].id == p && !online.contains(p),
    )
}

/// Whether `c` is among the first `n` identifiers of `ids`.
pub open spec fn seen_before(ids: Seq<Seq<char>>, n: int, c: Seq<char>) -> bool {
    exists|j: int| 0 <= j < n && ids[j] == c
}

/// The index of the first controller of `cs` with the identifier `c`.
fn find_controller(cs: &Vec<ControllerInfo>, c: &ClientId) -> (r: Option<usize>)
    ensures
        match r {
            Some(k) => k < cs@.len() && controller_of(cs@, c@) == Some(cs@[k as int]),
            None => controller_of(cs@, c@) is None,
        },
{
    let mut i: usize = 0;
    assert(cs@.skip(0) =~= cs@);
    while i < cs.len()
        invariant
            0 <= i <= cs@.len(),
            controller_of(cs@, c@) == controller_of(cs@.skip(i as int), c@),
        decreases cs@.len() - i,
    {
        assert(cs@.skip(i as int).drop_first() =~= cs@.skip(i + 1));
        assert(cs@.skip(i as int)[0] == cs@[i as int]);
        if cs[i].cid == *c {
            return Some(i);
        }
        i = i + 1;
    }
    None
}

/// A client without a position that connects and disconnects again, while
/// other clients stay connected, leaves the manager as it was.
pub proof fn lemma_add_then_remove_restores(
    v: ClientManagerView,
    info: ClientInfoView,
    profile: ActiveProfileView,
)
    requires
        info.position_id is None,
        !v.clients.dom().contains(info.id),
        v.clients.dom().len() > 0,
    ensures
        after_remove(after_add(v, info, profile).0, info.id).0 == v,
        after_add(v, info, profile).1.len() == 0,
        after_remove(after_add(v, info, profile).0, info.id).1.len() == 0,
{
    let v1 = after_add(v, info, profile).0;
    assert(v1.clients.remove(info.id) =~= v.clients);
    assert(after_remove(v1, info.id).0 =~= v);
}

/// The text of an optional position identifier.
pub open spec fn opt_position_view(o: Option<PositionId>) -> Option<Seq<char>> {
    match o {
        Some(p) => Some(p@),
        None => None,
    }
}

/// The positions with vacs clients after `c` leaves `pos`: a position left
/// with at most that client goes offline.
pub open spec fn left_position(
    op: Map<Seq<char>, Set<Seq<char>>>,
    pos: Option<Seq<char>>,
    c: Seq<char>,
) -> Map<Seq<char>, Set<Seq<char>>> {
    match pos {
        None => op,
        Some(p) => if !op.dom().contains(p) {
            op
        } else if op[p].len() <= 1 {
            op.remove(p)
        } else {
            op.insert(p, op[p].remove(c))
        },
    }
}

/// The positions with vacs clients after `c` joins `pos`.
pub open spec fn joined_position(
    op: Map<Seq<char>, Set<Seq<char>>>,
    pos: Option<Seq<char>>,
    c: Seq<char>,
) -> Map<Seq<char>, Set<Seq<char>>> {
    match pos {
        None => op,
        Some(p) => if op.dom().contains(p) {
            op.insert(p, op[p].insert(c))
        } else {
            op.insert(p, set![c])
        },
    }
}

/// The positions with vacs clients after the synchronisation of `c`: a
/// refreshed client whose position changed leaves the old one and joins the
/// new one.
pub open spec fn moved_positions(v: ClientManagerView, cs: Seq<ControllerInfo>, c: Seq<char>) -> Map<
    Seq<char>,
    Set<Seq<char>>,
> {
    if refreshed(v, cs, c) && refreshed_position(v, cs, c) != v.clients[c].info.position_id {
        joined_position(
            left_position(v.online_positions, v.clients[c].info.position_id, c),
            refreshed_position(v, cs, c),
            c,
        )
    } else {
        v.online_positions
    }
}

/// The clients at each online position are exactly the connected clients
/// whose position it is, and every position of a connected client is online.
pub open spec fn positions_consistent(v: ClientManagerView) -> bool {
    &&& forall|p: Seq<char>|
        #[trigger] v.online_positions.dom().contains(p) ==> v.online_positions[p].finite()
            && v.online_positions[p] != Set::<Seq<char>>::empty()
    &&& forall|p: Seq<char>, c: Seq<char>|
        #[trigger] v.online_positions.dom().contains(p) ==> (#[trigger] v.online_positions[p].contains(c)
            <==> (v.clients.dom().contains(c) && v.clients[c].info.position_id == Some(p)))
    &&& forall|c: Seq<char>|
        #[trigger] v.clients.dom().contains(c) && v.clients[c].info.position_id is Some
            ==> v.online_positions.dom().contains(v.clients[c].info.position_id->0)
}

/// The clients alone fix the positions with vacs clients: two consistent
/// states with the same clients have the same online positions.
pub proof fn lemma_positions_follow_clients(v: ClientManagerView, w: ClientManagerView)
    requires
        positions_consistent(v),
        positions_consistent(w),
        v.clients == w.clients,
    ensures
        v.online_positions == w.online_positions,
{
    assert forall|p: Seq<char>| v.online_positions.dom().contains(p) implies w.online_positions.dom().contains(p) by {
        let st = v.online_positions[p];
        if !(exists|c: Seq<char>| st.contains(c)) {
            assert(st =~= Set::<Seq<char>>::empty());
        }
        let c = choose|c: Seq<char>| st.contains(c);
        assert(v.online_positions[p].contains(c));
    }
    assert forall|p: Seq<char>| w.online_positions.dom().contains(p) implies v.online_positions.dom().contains(p) by {
        let st = w.online_positions[p];
        if !(exists|c: Seq<char>| st.contains(c)) {
            assert(st =~= Set::<Seq<char>>::empty());
        }
        let c = choose|c: Seq<char>| st.contains(c);
        assert(w.online_positions[p].contains(c));
    }
    assert forall|p: Seq<char>| #[trigger] v.online_positions.dom().contains(p) implies v.online_positions[p]
        == w.online_positions[p] by {
        assert(v.online_positions[p] =~= w.online_positions[p]);
    }
    assert(v.online_positions =~= w.online_positions);
}

/// Connecting a client keeps the positions consistent with the clients.
pub proof fn lemma_add_keeps_positions_consistent(
    v: ClientManagerView,
    info: ClientInfoView,
    profile: ActiveProfileView,
)
    requires
        positions_consistent(v),
        !v.clients.dom().contains(info.id),
    ensures
        positions_consistent(after_add(v, info, profile).0),
{
    let w = after_add(v, info, profile).0;
    assert forall|p: Seq<char>| #[trigger] w.online_positions.dom().contains(p) implies w.online_positions[p].finite()
        && w.online_positions[p] != Set::<Seq<char>>::empty() by {
        if w.online_positions[p] != v.online_positions[p] || !v.online_positions.dom().contains(p) {
            assert(w.online_positions[p].contains(info.id));
        }
    }
}

/// Disconnecting a client keeps the positions consistent with the clients.
pub proof fn lemma_remove_keeps_positions_consistent(v: ClientManagerView, c: Seq<char>)
    requires
        positions_consistent(v),
        v.clients.dom().contains(c),
    ensures
        positions_consistent(after_remove(v, c).0),
{
    let w = after_remove(v, c).0;
    assert(w.clients == v.clients.remove(c));
    match v.clients[c].info.position_id {
        None => {
            assert(w.online_positions == v.online_positions);
        },
        Some(p) => {
            let s = v.online_positions[p];
            assert(v.online_positions.dom().contains(p));
            assert(s.finite() && s.contains(c));
            if s.len() == 1 {
                assert(w.online_positions == v.online_positions.remove(p));
                assert forall|x: Seq<char>| s.contains(x) implies x == c by {
                    if x != c {
                        assert(s.remove(c).contains(x));
                        vstd::set_lib::lemma_set_empty_equivalency_len(s.remove(c));
                        assert(s.remove(c).len() == 0);
                    }
                }
                assert forall|x: Seq<char>|
                    #[trigger] w.clients.dom().contains(x) && w.clients[x].info.position_id is Some
                        implies w.online_positions.dom().contains(w.clients[x].info.position_id->0) by {
                    let q = v.clients[x].info.position_id->0;
                    assert(v.online_positions.dom().contains(q));
                    if q == p {
                        assert(v.online_positions[p].contains(x));
                    }
                }
            } else {
                assert(w.online_positions == v.online_positions.insert(p, s.remove(c)));
                assert(s.len() >= 1) by {
                    vstd::set_lib::lemma_set_empty_equivalency_len(s);
                }
                assert(s.remove(c).len() >= 1);
                vstd::set_lib::lemma_set_empty_equivalency_len(s.remove(c));
                assert forall|x: Seq<char>|
                    #[trigger] w.clients.dom().contains(x) && w.clients[x].info.position_id is Some
                        implies w.online_positions.dom().contains(w.clients[x].info.position_id->0) by {
                    assert(v.online_positions.dom().contains(v.clients[x].info.position_id->0));
                }
            }
        },
    }
}

/// A client that joins a position where other vacs clients are, and leaves
/// again, leaves the manager as it was and changes no station.
pub proof fn lemma_join_then_leave_restores(
    v: ClientManagerView,
    info: ClientInfoView,
    profile: ActiveProfileView,
)
    requires
        positions_consistent(v),
        v.clients.dom().finite(),
        !v.clients.dom().contains(info.id),
        info.position_id matches Some(p) && v.online_positions.dom().contains(p),
    ensures
        after_remove(after_add(v, info, profile).0, info.id).0 == v,
        after_add(v, info, profile).1.len() == 0,
        after_remove(after_add(v, info, profile).0, info.id).1.len() == 0,
{
    let p = info.position_id->0;
    let v1 = after_add(v, info, profile).0;
    let s = v.online_positions[p];
    assert(v.online_positions.dom().contains(p));
    assert(!s.contains(info.id));
    vstd::set_lib::lemma_set_empty_equivalency_len(s);
    let x = choose|x: Seq<char>| s.contains(x);
    assert(s.contains(x));
    assert(v.clients.dom().contains(x));
    assert(s.insert(info.id).len() == s.len() + 1);
    assert(s.len() > 0);
    assert(s.insert(info.id).remove(info.id) =~= s);
    assert(v1.online_positions.insert(p, v1.online_positions[p].remove(info.id)) =~= v.online_positions);
    assert(v1.clients.remove(info.id) =~= v.clients);
    assert(v1.clients.dom().contains(x));
    assert(v1.clients.remove(info.id).dom().contains(x));
    vstd::set_lib::lemma_set_empty_equivalency_len(v1.clients.remove(info.id).dom());
    assert(v1.clients.remove(info.id).dom().len() != 0);
    assert(after_remove(v1, info.id).0 =~= v);
}

/// A connected client that gives up its position, with the positions updated
/// by `left_position`, keeps the positions consistent with the clients.
proof fn lemma_leave_keeps_positions_consistent(v: ClientManagerView, c: Seq<char>, s: SessionView)
    requires
        positions_consistent(v),
        v.clients.dom().contains(c),
        s.info.position_id is None,
    ensures
        positions_consistent(
            ClientManagerView {
                clients: v.clients.insert(c, s),
                online_positions: left_position(v.online_positions, v.clients[c].info.position_id, c),
                ..v
            },
        ),
{
    let w = ClientManagerView {
        clients: v.clients.insert(c, s),
        online_positions: left_position(v.online_positions, v.clients[c].info.position_id, c),
        ..v
    };
    match v.clients[c].info.position_id {
        None => {
            assert(w.online_positions == v.online_positions);
        },
        Some(p) => {
            let st = v.online_positions[p];
            assert(v.online_positions.dom().contains(p));
            assert(st.finite() && st.contains(c));
            if st.len() <= 1 {
                assert(w.online_positions == v.online_positions.remove(p));
                assert forall|x: Seq<char>| st.contains(x) implies x == c by {
                    if x != c {
                        assert(st.remove(c).contains(x));
                        vstd::set_lib::lemma_set_empty_equivalency_len(st.remove(c));
                        assert(st.remove(c).len() == 0);
                    }
                }
                assert forall|x: Seq<char>|
                    #[trigger] w.clients.dom().contains(x) && w.clients[x].info.position_id is Some
                        implies w.online_positions.dom().contains(w.clients[x].info.position_id->0) by {
                    let q = v.clients[x].info.position_id->0;
                    assert(v.online_positions.dom().contains(q));
                    if q == p {
                        assert(v.online_positions[p].contains(x));
                    }
                }
            } else {
                assert(w.online_positions == v.online_positions.insert(p, st.remove(c)));
                assert(st.remove(c).len() >= 1);
                vstd::set_lib::lemma_set_empty_equivalency_len(st.remove(c));
                assert forall|x: Seq<char>|
                    #[trigger] w.clients.dom().contains(x) && w.clients[x].info.position_id is Some
                        implies w.online_positions.dom().contains(w.clients[x].info.position_id->0) by {
                    assert(v.online_positions.dom().contains(v.clients[x].info.position_id->0));
                }
            }
        },
    }
}

/// A connected client without a position that takes the position of `s`,
/// with the positions updated by `joined_position`, keeps the positions
/// consistent with the clients.
proof fn lemma_join_keeps_positions_consistent(v: ClientManagerView, c: Seq<char>, s: SessionView)
    requires
        positions_consistent(v),
        v.clients.dom().contains(c),
        v.clients[c].info.position_id is None,
    ensures
        positions_consistent(
            ClientManagerView {
                clients: v.clients.insert(c, s),
                online_positions: joined_position(v.online_positions, s.info.position_id, c),
                ..v
            },
        ),
{
    let w = ClientManagerView {
        clients: v.clients.insert(c, s),
        online_positions: joined_position(v.online_positions, s.info.position_id, c),
        ..v
    };
    match s.info.position_id {
        None => {
            assert(w.online_positions == v.online_positions);
        },
        Some(p) => {
            if v.online_positions.dom().contains(p) {
                assert(w.online_positions[p].contains(c));
            } else {
                assert(w.online_positions[p] == set![c]);
                assert(set![c].contains(c));
            }
            assert forall|q: Seq<char>| #[trigger] w.online_positions.dom().contains(q) implies w.online_positions[q].finite()
                && w.online_positions[q] != Set::<Seq<char>>::empty() by {
                if q == p {
                    assert(w.online_positions[q].contains(c));
                }
            }
        },
    }
}

/// Synchronising one connected client keeps the positions consistent with
/// the clients.
proof fn lemma_sync_keeps_positions_consistent(v: ClientManagerView, cs: Seq<ControllerInfo>, c: Seq<char>)
    requires
        positions_consistent(v),
        v.clients.dom().contains(c),
    ensures
        positions_consistent(
            ClientManagerView {
                clients: v.clients.insert(c, synced_session(v, cs, c)),
                online_positions: moved_positions(v, cs, c),
                ..v
            },
        ),
{
    let s = synced_session(v, cs, c);
    if refreshed(v, cs, c) && refreshed_position(v, cs, c) != v.clients[c].info.position_id {
        let cleared = SessionView { info: ClientInfoView { position_id: None, ..s.info }, ..s };
        lemma_leave_keeps_positions_consistent(v, c, cleared);
        let v1 = ClientManagerView {
            clients: v.clients.insert(c, cleared),
            online_positions: left_position(v.online_positions, v.clients[c].info.position_id, c),
            ..v
        };
        lemma_join_keeps_positions_consistent(v1, c, s);
        assert(v1.clients.insert(c, s) =~= v.clients.insert(c, s));
    } else {
        let w = ClientManagerView {
            clients: v.clients.insert(c, s),
            online_positions: moved_positions(v, cs, c),
            ..v
        };
        assert(w.online_positions == v.online_positions);
        assert forall|x: Seq<char>| #[trigger] w.clients.dom().contains(x) implies w.clients[x].info.position_id
            == v.clients[x].info.position_id by {}
    }
}

/// Tracks the connected clients, the positions they control and the stations
/// those positions cover.
pub struct ClientManager {
    network: Network,
    clients: Vec<ClientSession>,
    online_positions: Vec<OnlinePosition>,
    online_stations: Vec<OnlineStation>,
    vatsim_only: Vec<PositionId>,
}

impl View for ClientManager {
    type V = ClientManagerView;

    closed spec fn view(&self) -> ClientManagerView {
        ClientManagerView {
            network: self.network@,
            clients: to_map(self.clients@, client_key(), client_val()),
            online_positions: to_map(self.online_positions@, position_key(), position_val()),
            online_stations: to_map(self.online_stations@, station_key(), station_val()),
            vatsim_only: online_set(self.vatsim_only@),
        }
    }
}

impl ClientManager {
    /// The tables have distinct keys, and each position's list of clients
    /// holds every client once.
    pub closed spec fn wf(&self) -> bool {
        &&& keys_unique(self.clients@, client_key())
        &&& keys_unique(self.online_positions@, position_key())
        &&& keys_unique(self.online_stations@, station_key())
        &&& forall|i: int|
            0 <= i < self.online_positions@.len() ==> clients_distinct(
                #[trigger] self.online_positions@[i].clients@,
            )
    }

    /// A manager for the coverage `network`, without clients.
    pub fn new(network: Network) -> (r: Self)
        ensures
            r.wf(),
            r@.network == network@,
            r@.clients == Map::<Seq<char>, SessionView>::empty(),
            r@.online_positions == Map::<Seq<char>, Set<Seq<char>>>::empty(),
            r@.online_stations == Map::<Seq<char>, Seq<char>>::empty(),
            r@.vatsim_only == Set::<Seq<char>>::empty(),
            positions_consistent(r@),
    {
        let r = ClientManager {
            network,
            clients: Vec::new(),
            online_positions: Vec::new(),
            online_stations: Vec::new(),
            vatsim_only: Vec::new(),
        };
        assert(online_set(r.vatsim_only@) =~= Set::<Seq<char>>::empty());
        r
    }

    /// The coverage data.
    pub fn network(&self) -> (r: &Network)
        ensures
            r@ == self@.network,
    {
        &self.network
    }

    /// The positions that the controller `controller_info` may be logged in as.
    pub fn find_positions(&self, controller_info: &ControllerInfo) -> (r: Vec<&Position>)
        ensures
            r@.map_values(|p: &Position| p@) == crate::coverage::network::matching_positions(
                self@.network.positions,
                controller_info.callsign@,
                controller_info.frequency@,
                controller_info.facility_type,
            ),
            crate::coverage::network::positions_sorted(r@.map_values(|p: &Position| p@)),
    {
        self.network.find_positions(
            controller_info.callsign.as_str(),
            controller_info.frequency.as_str(),
            controller_info.facility_type,
        )
    }

    /// The position `position_id` of the coverage data, where one is given and
    /// known.
    pub fn get_position(&self, position_id: Option<&PositionId>) -> (r: Option<&Position>)
        ensures
            match position_id {
                Some(id) => match crate::coverage::network::position_of(
                    self@.network.positions,
                    id@,
                ) {
                    Some(p) => r matches Some(q) && q@ == p,
                    None => r is None,
                },
                None => r is None,
            },
    {
        match position_id {
            Some(id) => self.network.get_position(id),
            None => None,
        }
    }

    fn find_client(&self, client_id: &ClientId) -> (r: Option<usize>)
        requires
            self.wf(),
        ensures
            match r {
                Some(i) => i < self.clients@.len() && self.clients@[i as int]@.info.id == client_id@
                    && self@.clients.dom().contains(client_id@) && self@.clients[client_id@]
                    == self.clients@[i as int]@,
                None => !self@.clients.dom().contains(client_id@),
            },
    {
        let mut i: usize = 0;
        while i < self.clients.len()
            invariant
                0 <= i <= self.clients@.len(),
                self.wf(),
                forall|j: int| 0 <= j < i ==> self.clients@[j]@.info.id != client_id@,
            decreases self.clients@.len() - i,
        {
            if self.clients[i].info.id == *client_id {
                proof {
                    lemma_to_map_index(self.clients@, client_key(), client_val(), i as int);
                }
                return Some(i);
            }
            i = i + 1;
        }
        proof {
            lemma_to_map_dom(self.clients@, client_key(), client_val(), client_id@);
        }
        None
    }

    fn find_position(&self, position_id: &PositionId) -> (r: Option<usize>)
        requires
            self.wf(),
        ensures
            match r {
                Some(i) => i < self.online_positions@.len()
                    && self.online_positions@[i as int].position_id@ == position_id@
                    && self@.online_positions.dom().contains(position_id@)
                    && self@.online_positions[position_id@] == client_set(
                    self.online_positions@[i as int].clients@,
                ),
                None => !self@.online_positions.dom().contains(position_id@),
            },
    {
        let mut i: usize = 0;
        while i < self.online_positions.len()
            invariant
                0 <= i <= self.online_positions@.len(),
                self.wf(),
                forall|j: int| 0 <= j < i ==> self.online_positions@[j].position_id@ != position_id@,
            decreases self.online_positions@.len() - i,
        {
            if self.online_positions[i].position_id == *position_id {
                proof {
                    lemma_to_map_index(
                        self.online_positions@,
                        position_key(),
                        position_val(),
                        i as int,
                    );
                }
                return Some(i);
            }
            i = i + 1;
        }
        proof {
            lemma_to_map_dom(self.online_positions@, position_key(), position_val(), position_id@);
        }
        None
    }

    fn find_station(&self, station_id: &StationId) -> (r: Option<usize>)
        requires
            self.wf(),
        ensures
            match r {
                Some(i) => i < self.online_stations@.len()
                    && self.online_stations@[i as int].station_id@ == station_id@
                    && self@.online_stations.dom().contains(station_id@)
                    && self@.online_stations[station_id@]
                    == self.online_stations@[i as int].position_id@,
                None => !self@.online_stations.dom().contains(station_id@),
            },
    {
        let mut i: usize = 0;
        while i < self.online_stations.len()
            invariant
                0 <= i <= self.online_stations@.len(),
                self.wf(),
                forall|j: int| 0 <= j < i ==> self.online_stations@[j].station_id@ != station_id@,
            decreases self.online_stations@.len() - i,
        {
            if self.online_stations[i].station_id == *station_id {
                proof {
                    lemma_to_map_index(self.online_stations@, station_key(), station_val(), i as int);
                }
                return Some(i);
            }
            i = i + 1;
        }
        proof {
            lemma_to_map_dom(self.online_stations@, station_key(), station_val(), station_id@);
        }
        None
    }

    /// Whether `client_id` is connected.
    pub fn is_client_connected(&self, client_id: &ClientId) -> (r: bool)
        requires
            self.wf(),
        ensures
            r == self@.clients.dom().contains(client_id@),
    {
        self.find_client(client_id).is_some()
    }

    /// Whether no client is connected.
    pub fn is_empty(&self) -> (r: bool)
        requires
            self.wf(),
        ensures
            r == (self@.clients.dom().len() == 0),
    {
        proof {
            crate::keyed::lemma_to_map_len(self.clients@, client_key(), client_val());
        }
        self.clients.len() == 0
    }

    /// The session of `client_id`, if it is connected.
    pub fn get_client(&self, client_id: &ClientId) -> (r: Option<ClientSession>)
        requires
            self.wf(),
        ensures
            match r {
                Some(s) => self@.clients.dom().contains(client_id@) && s@ == self@.clients[client_id@],
                None => !self@.clients.dom().contains(client_id@),
            },
    {
        match self.find_client(client_id) {
            Some(i) => Some(self.clients[i].clone()),
            None => None,
        }
    }

    /// The clients controlling `position_id`, each once.
    pub fn clients_for_position(&self, position_id: &PositionId) -> (r: Vec<ClientId>)
        requires
            self.wf(),
        ensures
            clients_distinct(r@),
            client_set(r@) == (if self@.online_positions.dom().contains(position_id@) {
                self@.online_positions[position_id@]
            } else {
                Set::empty()
            }),
    {
        match self.find_position(position_id) {
            Some(i) => {
                let r = clone_ids(&self.online_positions[i].clients);
                assert(clients_distinct(self.online_positions@[i as int].clients@));
                r
            },
            None => {
                let r: Vec<ClientId> = Vec::new();
                assert(client_set(r@) =~= Set::<Seq<char>>::empty());
                r
            },
        }
    }

    /// The clients controlling the position that covers `station_id`, each
    /// once.
    pub fn clients_for_station(&self, station_id: &StationId) -> (r: Vec<ClientId>)
        requires
            self.wf(),
        ensures
            clients_distinct(r@),
            client_set(r@) == (if self@.online_stations.dom().contains(station_id@)
                && self@.online_positions.dom().contains(self@.online_stations[station_id@]) {
                self@.online_positions[self@.online_stations[station_id@]]
            } else {
                Set::empty()
            }),
    {
        match self.find_station(station_id) {
            Some(i) => self.clients_for_position(&self.online_stations[i].position_id),
            None => {
                let r: Vec<ClientId> = Vec::new();
                assert(client_set(r@) =~= Set::<Seq<char>>::empty());
                r
            },
        }
    }
    fn take_client_at(&mut self, i: usize) -> (r: ClientSession)
        requires
            old(self).wf(),
            i < old(self).clients@.len(),
        ensures
            final(self).wf(),
            old(self)@.clients.dom().contains(r@.info.id),
            r@ == old(self)@.clients[r@.info.id],
            r@.info.id == old(self).clients@[i as int]@.info.id,
            r == old(self).clients@[i as int],
            final(self)@ == (ClientManagerView {
                clients: old(self)@.clients.remove(r@.info.id),
                ..old(self)@
            }),
    {
        proof {
            lemma_to_map_index(self.clients@, client_key(), client_val(), i as int);
            lemma_to_map_remove(self.clients@, client_key(), client_val(), i as int);
        }
        self.clients.remove(i)
    }

    fn put_client(&mut self, s: ClientSession)
        requires
            old(self).wf(),
            !old(self)@.clients.dom().contains(s@.info.id),
        ensures
            final(self).wf(),
            final(self)@ == (ClientManagerView {
                clients: old(self)@.clients.insert(s@.info.id, s@),
                ..old(self)@
            }),
    {
        proof {
            lemma_to_map_push(self.clients@, client_key(), client_val(), s);
        }
        self.clients.push(s);
    }

    fn take_position_at(&mut self, i: usize) -> (r: OnlinePosition)
        requires
            old(self).wf(),
            i < old(self).online_positions@.len(),
        ensures
            final(self).wf(),
            clients_distinct(r.clients@),
            old(self)@.online_positions.dom().contains(r.position_id@),
            client_set(r.clients@) == old(self)@.online_positions[r.position_id@],
            r.position_id@ == old(self).online_positions@[i as int].position_id@,
            r == old(self).online_positions@[i as int],
            final(self).clients@ == old(self).clients@,
            final(self)@ == (ClientManagerView {
                online_positions: old(self)@.online_positions.remove(r.position_id@),
                ..old(self)@
            }),
    {
        proof {
            lemma_to_map_index(self.online_positions@, position_key(), position_val(), i as int);
            lemma_to_map_remove(self.online_positions@, position_key(), position_val(), i as int);
            assert(clients_distinct(self.online_positions@[i as int].clients@));
        }
        let ghost before = self.online_positions@;
        let r = self.online_positions.remove(i);
        assert forall|j: int| 0 <= j < self.online_positions@.len() implies clients_distinct(
            #[trigger] self.online_positions@[j].clients@,
        ) by {
            if j < i {
                assert(self.online_positions@[j] == before[j]);
                assert(clients_distinct(before[j].clients@));
            } else {
                assert(self.online_positions@[j] == before[j + 1]);
                assert(clients_distinct(before[j + 1].clients@));
            }
        }
        r
    }

    fn put_position(&mut self, e: OnlinePosition)
        requires
            old(self).wf(),
            clients_distinct(e.clients@),
            !old(self)@.online_positions.dom().contains(e.position_id@),
        ensures
            final(self).wf(),
            final(self).clients@ == old(self).clients@,
            final(self)@ == (ClientManagerView {
                online_positions: old(self)@.online_positions.insert(
                    e.position_id@,
                    client_set(e.clients@),
                ),
                ..old(self)@
            }),
    {
        proof {
            lemma_to_map_push(self.online_positions@, position_key(), position_val(), e);
        }
        let ghost before = self.online_positions@;
        self.online_positions.push(e);
        assert forall|j: int| 0 <= j < self.online_positions@.len() implies clients_distinct(
            #[trigger] self.online_positions@[j].clients@,
        ) by {
            if j < before.len() {
                assert(self.online_positions@[j] == before[j]);
                assert(clients_distinct(before[j].clients@));
            }
        }
    }

    /// Records `position_id` as the covering position of `station_id`.
    fn set_station(&mut self, station_id: &StationId, position_id: &PositionId)
        requires
            old(self).wf(),
        ensures
            final(self).wf(),
            final(self)@ == (ClientManagerView {
                online_stations: old(self)@.online_stations.insert(station_id@, position_id@),
                ..old(self)@
            }),
    {
        self.remove_station(station_id);
        let e = OnlineStation { station_id: station_id.clone(), position_id: position_id.clone() };
        proof {
            lemma_to_map_push(self.online_stations@, station_key(), station_val(), e);
        }
        self.online_stations.push(e);
        assert(self@.online_stations =~= old(self)@.online_stations.insert(station_id@, position_id@));
    }

    /// Forgets `station_id` as an online station.
    fn remove_station(&mut self, station_id: &StationId)
        requires
            old(self).wf(),
        ensures
            final(self).wf(),
            final(self)@ == (ClientManagerView {
                online_stations: old(self)@.online_stations.remove(station_id@),
                ..old(self)@
            }),
    {
        match self.find_station(station_id) {
            Some(i) => {
                proof {
                    lemma_to_map_remove(self.online_stations@, station_key(), station_val(), i as int);
                }
                let _ = self.online_stations.remove(i);
            },
            None => {
                assert(self@.online_stations =~= old(self)@.online_stations.remove(station_id@));
            },
        }
    }

    /// Applies the station changes `changes`, in order, to the covering
    /// position of each online station.
    fn update_online_stations(&mut self, changes: &Vec<StationChange>)
        requires
            old(self).wf(),
        ensures
            final(self).wf(),
            final(self)@ == (ClientManagerView {
                online_stations: stations_after(old(self)@.online_stations, changes_view(changes@)),
                ..old(self)@
            }),
    {
        let ghost v0 = self@;
        assert(changes_view(changes@).subrange(0, 0) =~= Seq::<StationChangeView>::empty());
        let mut i: usize = 0;
        while i < changes.len()
            invariant
                0 <= i <= changes@.len(),
                self.wf(),
                self@ == (ClientManagerView {
                    online_stations: stations_after(
                        v0.online_stations,
                        changes_view(changes@).subrange(0, i as int),
                    ),
                    ..v0
                }),
            decreases changes@.len() - i,
        {
            proof {
                let sub = changes_view(changes@).subrange(0, i + 1);
                assert(sub.drop_last() =~= changes_view(changes@).subrange(0, i as int));
                assert(sub.last() == changes@[i as int]@);
            }
            match &changes[i] {
                StationChange::Online { station_id, position_id } => {
                    self.set_station(station_id, position_id);
                },
                StationChange::Handoff { station_id, to_position_id, .. } => {
                    self.set_station(station_id, to_position_id);
                },
                StationChange::Offline { station_id } => {
                    self.remove_station(station_id);
                },
            }
            i = i + 1;
        }
        assert(changes_view(changes@).subrange(0, changes@.len() as int) =~= changes_view(changes@));
    }

    /// The positions online on VATSIM without a vacs client.
    pub fn vatsim_only_position_ids(&self) -> (r: Vec<PositionId>)
        ensures
            online_set(r@) == self@.vatsim_only,
    {
        let mut r: Vec<PositionId> = Vec::new();
        let mut i: usize = 0;
        while i < self.vatsim_only.len()
            invariant
                0 <= i <= self.vatsim_only@.len(),
                r@.len() == i,
                forall|j: int| 0 <= j < i ==> #[trigger] r@[j]@ == self.vatsim_only@[j]@,
            decreases self.vatsim_only@.len() - i,
        {
            r.push(self.vatsim_only[i].clone());
            i = i + 1;
        }
        assert forall|x: Seq<char>| online_set(r@).contains(x) <==> online_set(self.vatsim_only@).contains(x) by {
            if online_set(r@).contains(x) {
                let j = choose|j: int| 0 <= j < r@.len() && r@[j]@ == x;
                assert(self.vatsim_only@[j]@ == x);
            }
            if online_set(self.vatsim_only@).contains(x) {
                let j = choose|j: int| 0 <= j < self.vatsim_only@.len() && self.vatsim_only@[j]@ == x;
                assert(r@[j]@ == x);
            }
        }
        assert(online_set(r@) =~= self@.vatsim_only);
        r
    }

    /// The online stations.
    pub fn online_station_ids(&self) -> (r: Vec<StationId>)
        requires
            self.wf(),
        ensures
            r@.map_values(|s: StationId| s@).to_set() == self@.online_stations.dom(),
    {
        let mut r: Vec<StationId> = Vec::new();
        let mut i: usize = 0;
        while i < self.online_stations.len()
            invariant
                0 <= i <= self.online_stations@.len(),
                r@.len() == i,
                forall|j: int|
                    0 <= j < i ==> #[trigger] r@[j]@ == self.online_stations@[j].station_id@,
            decreases self.online_stations@.len() - i,
        {
            r.push(self.online_stations[i].station_id.clone());
            i = i + 1;
        }
        let ghost ids = r@.map_values(|s: StationId| s@);
        assert forall|x: Seq<char>| ids.to_set().contains(x) <==> self@.online_stations.dom().contains(x) by {
            lemma_to_map_dom(self.online_stations@, station_key(), station_val(), x);
            if ids.to_set().contains(x) {
                let j = choose|j: int| 0 <= j < ids.len() && ids[j] == x;
                assert(self.online_stations@[j].station_id@ == x);
            }
            if self@.online_stations.dom().contains(x) {
                let j = choose|j: int|
                    0 <= j < self.online_stations@.len() && self.online_stations@[j].station_id@ == x;
                assert(ids[j] == x);
            }
        }
        assert(ids.to_set() =~= self@.online_stations.dom());
        r
    }

    /// The positions with vacs clients.
    fn position_ids(&self) -> (r: Vec<PositionId>)
        requires
            self.wf(),
        ensures
            online_set(r@) == self@.online_positions.dom(),
    {
        let mut r: Vec<PositionId> = Vec::new();
        let mut i: usize = 0;
        while i < self.online_positions.len()
            invariant
                0 <= i <= self.online_positions@.len(),
                r@.len() == i,
                forall|j: int|
                    0 <= j < i ==> #[trigger] r@[j]@ == self.online_positions@[j].position_id@,
            decreases self.online_positions@.len() - i,
        {
            r.push(self.online_positions[i].position_id.clone());
            i = i + 1;
        }
        assert forall|x: Seq<char>| online_set(r@).contains(x) <==> self@.online_positions.dom().contains(x) by {
            lemma_to_map_dom(self.online_positions@, position_key(), position_val(), x);
            if online_set(r@).contains(x) {
                let j = choose|j: int| 0 <= j < r@.len() && r@[j]@ == x;
                assert(self.online_positions@[j].position_id@ == x);
            }
            if self@.online_positions.dom().contains(x) {
                let j = choose|j: int|
                    0 <= j < self.online_positions@.len() && self.online_positions@[j].position_id@ == x;
                assert(r@[j]@ == x);
            }
        }
        assert(online_set(r@) =~= self@.online_positions.dom());
        r
    }

    /// The positions with vacs clients and those online on VATSIM only.
    fn all_positions(&self) -> (r: Vec<PositionId>)
        requires
            self.wf(),
        ensures
            online_set(r@) == self@.online_positions.dom().union(self@.vatsim_only),
    {
        let mut r = self.position_ids();
        let ghost first = r@;
        let mut i: usize = 0;
        while i < self.vatsim_only.len()
            invariant
                0 <= i <= self.vatsim_only@.len(),
                r@.len() == first.len() + i,
                forall|j: int| 0 <= j < first.len() ==> #[trigger] r@[j] == first[j],
                forall|j: int| 0 <= j < i ==> #[trigger] r@[first.len() + j]@ == self.vatsim_only@[j]@,
            decreases self.vatsim_only@.len() - i,
        {
            r.push(self.vatsim_only[i].clone());
            i = i + 1;
        }
        assert forall|x: Seq<char>| online_set(r@).contains(x) <==> (online_set(first).contains(x)
            || online_set(self.vatsim_only@).contains(x)) by {
            if online_set(r@).contains(x) {
                let j = choose|j: int| 0 <= j < r@.len() && r@[j]@ == x;
                if j < first.len() {
                    assert(first[j]@ == x);
                } else {
                    let k = j - first.len();
                    assert(r@[first.len() + k] == r@[j]);
                    assert(self.vatsim_only@[k]@ == x);
                }
            }
            if online_set(first).contains(x) {
                let j = choose|j: int| 0 <= j < first.len() && first[j]@ == x;
                assert(r@[j]@ == x);
            }
            if online_set(self.vatsim_only@).contains(x) {
                let j = choose|j: int| 0 <= j < self.vatsim_only@.len() && self.vatsim_only@[j]@ == x;
                assert(r@[first.len() + j]@ == x);
            }
        }
        assert(online_set(r@) =~= self@.online_positions.dom().union(self@.vatsim_only));
        r
    }
    /// Connects the client `client_info` with the profile `active_profile`,
    /// refused where a client with its identifier is connected already.
    /// Returns the station changes that clients are to be told of.
    pub fn add_client(&mut self, client_info: ClientInfo, active_profile: ActiveProfile) -> (r:
        Result<Vec<StationChange>, ClientManagerError>)
        requires
            old(self).wf(),
        ensures
            final(self).wf(),
            old(self)@.clients.dom().contains(client_info@.id) ==> (r matches Err(
                ClientManagerError::DuplicateClient(id),
            ) && id@ == client_info@.id && final(self)@ == old(self)@),
            !old(self)@.clients.dom().contains(client_info@.id) ==> (r matches Ok(changes)
                && final(self)@ == after_add(old(self)@, client_info@, active_profile@).0
                && changes_view(changes@) == after_add(
                old(self)@,
                client_info@,
                active_profile@,
            ).1),
            positions_consistent(old(self)@) ==> positions_consistent(final(self)@),
    {
        let ghost v0 = self@;
        let ghost info = client_info@;
        proof {
            if positions_consistent(v0) && !v0.clients.dom().contains(info.id) {
                lemma_add_keeps_positions_consistent(v0, info, active_profile@);
            }
        }
        if self.find_client(&client_info.id).is_some() {
            return Err(ClientManagerError::DuplicateClient(client_info.id.to_string()));
        }
        let position = match &client_info.position_id {
            Some(p) => Some(p.clone()),
            None => None,
        };
        let client_id = client_info.id.clone();
        self.put_client(ClientSession::new(client_info, active_profile));
        let ghost v1 = self@;
        match position {
            None => {
                let r: Vec<StationChange> = Vec::new();
                assert(changes_view(r@) =~= Seq::<StationChangeView>::empty());
                Ok(r)
            },
            Some(position_id) => {
                match self.find_position(&position_id) {
                    Some(i) => {
                        if self.online_positions[i].clients.len() > 0 {
                            let mut e = self.take_position_at(i);
                            proof {
                                assert(crate::sets::client_ids(e.clients@)[0] == e.clients@[0]@);
                                assert(client_set(e.clients@).contains(e.clients@[0]@));
                            }
                            insert_client(&mut e.clients, &client_id);
                            self.put_position(e);
                            let r: Vec<StationChange> = Vec::new();
                            assert(changes_view(r@) =~= Seq::<StationChangeView>::empty());
                            assert(self@ =~= after_add(v0, info, active_profile@).0);
                            return Ok(r);
                        }
                        proof {
                            assert(client_set(self.online_positions@[i as int].clients@)
                                =~= Set::<Seq<char>>::empty());
                        }
                    },
                    None => {},
                }
                let all = self.all_positions();
                let all_changes = self.network.coverage_changes(
                    &position_id,
                    PositionChange::Connected,
                    &all,
                );
                match self.find_position(&position_id) {
                    Some(i) => {
                        let _ = self.take_position_at(i);
                    },
                    None => {},
                }
                let mut clients: Vec<ClientId> = Vec::new();
                proof {
                    assert(clients_distinct(clients@));
                }
                insert_client(&mut clients, &client_id);
                proof {
                    assert(client_set(clients@) =~= Set::<Seq<char>>::empty().insert(client_id@));
                }
                self.put_position(OnlinePosition { position_id: position_id.clone(), clients });
                self.update_online_stations(&all_changes);
                let online = self.position_ids();
                let r = Self::client_visible_changes(&all_changes, &online);
                proof {
                    let all_set = v0.online_positions.dom().union(v0.vatsim_only);
                    if all_set.contains(position_id@) {
                        assert(changes_view(all_changes@) =~= Seq::<StationChangeView>::empty());
                    }
                    assert(self@.online_positions =~= v0.online_positions.insert(
                        position_id@,
                        set![client_id@],
                    ));
                    assert(self@ =~= after_add(v0, info, active_profile@).0);
                }
                Ok(r)
            },
        }
    }

    /// Disconnects the client `client_id`; `None` where it is not connected.
    /// Returns the station changes that clients are to be told of.
    pub fn remove_client(&mut self, client_id: &ClientId) -> (r: Option<Vec<StationChange>>)
        requires
            old(self).wf(),
        ensures
            final(self).wf(),
            !old(self)@.clients.dom().contains(client_id@) ==> r is None && final(self)@ == old(
                self,
            )@,
            old(self)@.clients.dom().contains(client_id@) ==> (r matches Some(changes)
                && final(self)@ == after_remove(old(self)@, client_id@).0 && changes_view(changes@)
                == after_remove(old(self)@, client_id@).1),
            positions_consistent(old(self)@) ==> positions_consistent(final(self)@),
    {
        let ghost v0 = self@;
        proof {
            if positions_consistent(v0) && v0.clients.dom().contains(client_id@) {
                lemma_remove_keeps_positions_consistent(v0, client_id@);
            }
        }
        let i = match self.find_client(client_id) {
            Some(i) => i,
            None => {
                return None;
            },
        };
        let session = self.take_client_at(i);
        let ghost v1 = self@;
        let changes: Vec<StationChange> = match &session.info.position_id {
            None => {
                let r: Vec<StationChange> = Vec::new();
                assert(changes_view(r@) =~= Seq::<StationChangeView>::empty());
                r
            },
            Some(position_id) => {
                match self.find_position(position_id) {
                    None => {
                        let r: Vec<StationChange> = Vec::new();
                        assert(changes_view(r@) =~= Seq::<StationChangeView>::empty());
                        r
                    },
                    Some(j) => {
                        proof {
                            lemma_client_set_len(self.online_positions@[j as int].clients@);
                        }
                        if self.online_positions[j].clients.len() == 1 {
                            let before = self.all_positions();
                            let after = without_position(&before, position_id);
                            let all_changes = self.network.coverage_diff(&before, &after);
                            let _ = self.take_position_at(j);
                            self.update_online_stations(&all_changes);
                            let online = self.position_ids();
                            Self::client_visible_changes(&all_changes, &online)
                        } else {
                            let mut e = self.take_position_at(j);
                            remove_client(&mut e.clients, client_id);
                            self.put_position(e);
                            let r: Vec<StationChange> = Vec::new();
                            assert(changes_view(r@) =~= Seq::<StationChangeView>::empty());
                            r
                        }
                    },
                }
            },
        };
        let ghost v2 = self@;
        proof {
            crate::keyed::lemma_to_map_len(self.clients@, client_key(), client_val());
        }
        if self.clients.len() == 0 {
            self.vatsim_only = Vec::new();
            self.online_stations = Vec::new();
            assert(online_set(self.vatsim_only@) =~= Set::<Seq<char>>::empty());
            assert(self@.online_stations =~= Map::<Seq<char>, Seq<char>>::empty());
        }
        proof {
            assert(self@ =~= after_remove(v0, client_id@).0);
        }
        Some(changes)
    }
    /// The connected clients but `self_client_id`, sorted by identifier.
    pub fn list_clients(&self, self_client_id: Option<&ClientId>) -> (r: Vec<ClientInfo>)
        requires
            self.wf(),
        ensures
            infos_sorted(info_views(r@)),
            forall|i: int|
                #![trigger r@[i]]
                0 <= i < r@.len() ==> self@.clients.dom().contains(r@[i]@.id) && r@[i]@
                    == self@.clients[r@[i]@.id].info && !(self_client_id matches Some(s) && s@
                    == r@[i]@.id),
            forall|k: Seq<char>|
                #[trigger] self@.clients.dom().contains(k) && !(self_client_id matches Some(s) && s@
                    == k) ==> exists|i: int| 0 <= i < r@.len() && r@[i]@.id == k,
    {
        let mut r: Vec<ClientInfo> = Vec::new();
        let mut k: usize = 0;
        while k < self.clients.len()
            invariant
                0 <= k <= self.clients@.len(),
                self.wf(),
                infos_sorted(info_views(r@)),
                forall|i: int|
                    #![trigger r@[i]]
                    0 <= i < r@.len() ==> exists|j: int|
                        0 <= j < k && #[trigger] self.clients@[j]@.info == r@[i]@ && !(
                        self_client_id matches Some(s) && s@ == r@[i]@.id),
                forall|j: int|
                    0 <= j < k && !(self_client_id matches Some(s) && s@
                        == self.clients@[j]@.info.id) ==> exists|i: int|
                        0 <= i < r@.len() && r@[i]@ == #[trigger] self.clients@[j]@.info,
            decreases self.clients@.len() - k,
        {
            let skip = match self_client_id {
                Some(s) => *s == self.clients[k].info.id,
                None => false,
            };
            if !skip {
                let ghost before = r@;
                proof {
                    assert forall|i: int| 0 <= i < r@.len() implies #[trigger] r@[i]@.id
                        != self.clients@[k as int]@.info.id by {
                        let j = choose|j: int|
                            0 <= j < k && #[trigger] self.clients@[j]@.info == r@[i]@ && !(
                            self_client_id matches Some(s) && s@ == r@[i]@.id);
                        assert(self.clients@[j]@.info.id != self.clients@[k as int]@.info.id);
                    }
                }
                insert_info_sorted(&mut r, self.clients[k].info.clone());
                proof {
                    assert forall|i: int| #![trigger r@[i]] 0 <= i < r@.len() implies exists|j: int|
                        0 <= j < k + 1 && #[trigger] self.clients@[j]@.info == r@[i]@ && !(
                        self_client_id matches Some(s) && s@ == r@[i]@.id) by {
                        assert(info_views(r@).to_set().contains(info_views(r@)[i]));
                        if info_views(before).to_set().contains(r@[i]@) {
                            let q = choose|q: int| 0 <= q < info_views(before).len() && info_views(before)[q] == r@[i]@;
                            assert(before[q]@ == r@[i]@);
                        } else {
                            assert(r@[i]@ == self.clients@[k as int]@.info);
                        }
                    }
                    assert forall|j: int|
                        0 <= j < k + 1 && !(self_client_id matches Some(s) && s@
                            == self.clients@[j]@.info.id) implies exists|i: int|
                        0 <= i < r@.len() && r@[i]@ == #[trigger] self.clients@[j]@.info by {
                        let x = self.clients@[j]@.info;
                        if j < k {
                            let i = choose|i: int| 0 <= i < before.len() && before[i]@ == x;
                            assert(info_views(before)[i] == x);
                        }
                        assert(info_views(r@).to_set().contains(x));
                        let i = choose|i: int| 0 <= i < info_views(r@).len() && info_views(r@)[i] == x;
                        assert(r@[i]@ == x);
                    }
                }
            }
            k = k + 1;
        }
        proof {
            assert forall|i: int|
                #![trigger r@[i]]
                0 <= i < r@.len() implies self@.clients.dom().contains(r@[i]@.id) && r@[i]@
                    == self@.clients[r@[i]@.id].info && !(self_client_id matches Some(s) && s@
                    == r@[i]@.id) by {
                let j = choose|j: int|
                    0 <= j < self.clients@.len() && #[trigger] self.clients@[j]@.info == r@[i]@ && !(
                    self_client_id matches Some(s) && s@ == r@[i]@.id);
                lemma_to_map_index(self.clients@, client_key(), client_val(), j);
            }
            assert forall|c: Seq<char>|
                #[trigger] self@.clients.dom().contains(c) && !(self_client_id matches Some(s) && s@
                    == c) implies exists|i: int| 0 <= i < r@.len() && r@[i]@.id == c by {
                lemma_to_map_dom(self.clients@, client_key(), client_val(), c);
                let j = choose|j: int| 0 <= j < self.clients@.len() && self.clients@[j]@.info.id == c;
                let i = choose|i: int| 0 <= i < r@.len() && r@[i]@ == #[trigger] self.clients@[j]@.info;
                assert(r@[i]@.id == c);
            }
        }
        r
    }
    /// Adds the station at index `k` of the online stations to `r`, where it
    /// is covered by a position with vacs clients.
    fn list_station_at(
        &self,
        r: &mut Vec<StationInfo>,
        k: usize,
        self_position_id: Option<&PositionId>,
    )
        requires
            self.wf(),
            k < self.online_stations@.len(),
            station_infos_sorted(station_info_views(old(r)@)),
        ensures
            station_infos_sorted(station_info_views(final(r)@)),
            ({
                let sid = self.online_stations@[k as int].station_id@;
                let own = match self_position_id {
                    Some(p) => Some(p@),
                    None => None,
                };
                let x = (sid, is_own(self@, own, sid));
                if self@.online_positions.dom().contains(self@.online_stations[sid]) {
                    (exists|i: int| 0 <= i < old(r)@.len() && #[trigger] old(r)@[i].id@ == sid)
                        ==> station_info_views(final(r)@) == station_info_views(old(r)@)
                } else {
                    station_info_views(final(r)@) == station_info_views(old(r)@)
                }
            }),
            ({
                let sid = self.online_stations@[k as int].station_id@;
                let own = match self_position_id {
                    Some(p) => Some(p@),
                    None => None,
                };
                self@.online_positions.dom().contains(self@.online_stations[sid]) && !(exists|i: int|
                    0 <= i < old(r)@.len() && #[trigger] old(r)@[i].id@ == sid)
                    ==> station_info_views(final(r)@).to_set() == station_info_views(
                    old(r)@,
                ).to_set().insert((sid, is_own(self@, own, sid)))
            }),
    {
        proof {
            lemma_to_map_index(self.online_stations@, station_key(), station_val(), k as int);
        }
        let entry = &self.online_stations[k];
        if self.find_position(&entry.position_id).is_some() {
            let own = match self_position_id {
                Some(p) => *p == entry.position_id,
                None => false,
            };
            insert_station_info_sorted(r, StationInfo { id: entry.station_id.clone(), own });
        }
    }

    /// The online stations listed to a client with the relevant stations
    /// `relevant` whose own position is `self_position_id`, sorted by
    /// identifier, each with whether the client's position covers it.
    pub fn list_stations(&self, relevant: &RelevantStations, self_position_id: Option<&PositionId>) -> (r:
        Vec<StationInfo>)
        requires
            self.wf(),
        ensures
            station_infos_sorted(station_info_views(r@)),
            forall|i: int|
                #![trigger r@[i]]
                0 <= i < r@.len() ==> listed(self@, *relevant, r@[i].id@) && r@[i].own == is_own(
                    self@,
                    match self_position_id {
                        Some(p) => Some(p@),
                        None => None,
                    },
                    r@[i].id@,
                ),
            forall|sid: Seq<char>|
                #[trigger] listed(self@, *relevant, sid) ==> exists|i: int|
                    0 <= i < r@.len() && r@[i].id@ == sid,
    {
        let ghost own = match self_position_id {
            Some(p) => Some(p@),
            None => None,
        };
        let mut r: Vec<StationInfo> = Vec::new();
        match relevant {
            RelevantStations::All => {
                let mut k: usize = 0;
                while k < self.online_stations.len()
                    invariant
                        0 <= k <= self.online_stations@.len(),
                        self.wf(),
                        *relevant matches RelevantStations::All,
                        own == match self_position_id {
                            Some(p) => Some(p@),
                            None => None::<Seq<char>>,
                        },
                        station_infos_sorted(station_info_views(r@)),
                        forall|i: int|
                            #![trigger r@[i]]
                            0 <= i < r@.len() ==> listed(self@, *relevant, r@[i].id@) && r@[i].own
                                == is_own(self@, own, r@[i].id@),
                        forall|j: int|
                            0 <= j < k && listed(
                                self@,
                                *relevant,
                                #[trigger] self.online_stations@[j].station_id@,
                            ) ==> exists|i: int|
                                0 <= i < r@.len() && r@[i].id@ == self.online_stations@[j].station_id@,
                    decreases self.online_stations@.len() - k,
                {
                    let ghost before = r@;
                    self.list_station_at(&mut r, k, self_position_id);
                    proof {
                        lemma_to_map_index(self.online_stations@, station_key(), station_val(), k as int);
                        let sid = self.online_stations@[k as int].station_id@;
                        assert forall|i: int| #![trigger r@[i]] 0 <= i < r@.len() implies listed(
                            self@,
                            *relevant,
                            r@[i].id@,
                        ) && r@[i].own == is_own(self@, own, r@[i].id@) by {
                            let x = station_info_views(r@)[i];
                            assert(station_info_views(r@).to_set().contains(x));
                            if station_info_views(before).to_set().contains(x) {
                                let q = choose|q: int|
                                    0 <= q < station_info_views(before).len()
                                        && station_info_views(before)[q] == x;
                                assert(before[q].id@ == x.0 && before[q].own == x.1);
                            }
                        }
                        assert forall|j: int|
                            0 <= j < k + 1 && listed(
                                self@,
                                *relevant,
                                #[trigger] self.online_stations@[j].station_id@,
                            ) implies exists|i: int|
                            0 <= i < r@.len() && r@[i].id@ == self.online_stations@[j].station_id@ by {
                            let sj = self.online_stations@[j].station_id@;
                            if j < k {
                                let i = choose|i: int| 0 <= i < before.len() && before[i].id@ == sj;
                                let x = station_info_views(before)[i];
                                assert(station_info_views(before).to_set().contains(x));
                                if station_info_views(r@) != station_info_views(before) {
                                    assert(station_info_views(r@).to_set().contains(x));
                                }
                                let i2 = choose|i2: int|
                                    0 <= i2 < station_info_views(r@).len()
                                        && station_info_views(r@)[i2] == x;
                                assert(r@[i2].id@ == sj);
                            } else {
                                if exists|i: int| 0 <= i < before.len() && #[trigger] before[i].id@ == sj {
                                    let i = choose|i: int| 0 <= i < before.len() && #[trigger] before[i].id@ == sj;
                                    assert(station_info_views(r@) == station_info_views(before));
                                    assert(station_info_views(before)[i].0 == sj);
                                    assert(station_info_views(r@)[i].0 == r@[i].id@);
                                } else {
                                    let x = (sj, is_own(self@, own, sj));
                                    assert(station_info_views(r@).to_set().contains(x));
                                    let i2 = choose|i2: int|
                                        0 <= i2 < station_info_views(r@).len()
                                            && station_info_views(r@)[i2] == x;
                                    assert(r@[i2].id@ == sj);
                                }
                            }
                        }
                    }
                    k = k + 1;
                }
                proof {
                    assert forall|sid: Seq<char>| #[trigger] listed(self@, *relevant, sid) implies exists|
                        i: int,
                    | 0 <= i < r@.len() && r@[i].id@ == sid by {
                        lemma_to_map_dom(self.online_stations@, station_key(), station_val(), sid);
                        let j = choose|j: int|
                            0 <= j < self.online_stations@.len() && self.online_stations@[j].station_id@
                                == sid;
                        assert(listed(self@, *relevant, self.online_stations@[j].station_id@));
                    }
                }
                r
            },
            RelevantStations::Subset(ids) => {
                let ghost idv = ids@.map_values(|s: StationId| s@);
                let mut k: usize = 0;
                while k < ids.len()
                    invariant
                        0 <= k <= ids@.len(),
                        self.wf(),
                        *relevant matches RelevantStations::Subset(x) && x@ == ids@,
                        idv == ids@.map_values(|s: StationId| s@),
                        own == match self_position_id {
                            Some(p) => Some(p@),
                            None => None::<Seq<char>>,
                        },
                        station_infos_sorted(station_info_views(r@)),
                        forall|i: int|
                            #![trigger r@[i]]
                            0 <= i < r@.len() ==> listed(self@, *relevant, r@[i].id@) && r@[i].own
                                == is_own(self@, own, r@[i].id@),
                        forall|j: int|
                            0 <= j < k && listed(self@, *relevant, #[trigger] ids@[j]@) ==> exists|
                                i: int,
                            | 0 <= i < r@.len() && r@[i].id@ == ids@[j]@,
                    decreases ids@.len() - k,
                {
                    let ghost before = r@;
                    let ghost sid = ids@[k as int]@;
                    match self.find_station(&ids[k]) {
                        Some(q) => {
                            self.list_station_at(&mut r, q, self_position_id);
                            proof {
                                assert(idv[k as int] == sid);
                                assert forall|i: int| #![trigger r@[i]] 0 <= i < r@.len() implies listed(
                                    self@,
                                    *relevant,
                                    r@[i].id@,
                                ) && r@[i].own == is_own(self@, own, r@[i].id@) by {
                                    let x = station_info_views(r@)[i];
                                    assert(station_info_views(r@).to_set().contains(x));
                                    if station_info_views(before).to_set().contains(x) {
                                        let q2 = choose|q2: int|
                                            0 <= q2 < station_info_views(before).len()
                                                && station_info_views(before)[q2] == x;
                                        assert(before[q2].id@ == x.0 && before[q2].own == x.1);
                                    }
                                }
                                assert forall|j: int|
                                    0 <= j < k + 1 && listed(
                                        self@,
                                        *relevant,
                                        #[trigger] ids@[j]@,
                                    ) implies exists|i: int| 0 <= i < r@.len() && r@[i].id@ == ids@[j]@ by {
                                    let sj = ids@[j]@;
                                    if j < k {
                                        let i = choose|i: int| 0 <= i < before.len() && before[i].id@ == sj;
                                        let x = station_info_views(before)[i];
                                        assert(station_info_views(before).to_set().contains(x));
                                        if station_info_views(r@) != station_info_views(before) {
                                            assert(station_info_views(r@).to_set().contains(x));
                                        }
                                        let i2 = choose|i2: int|
                                            0 <= i2 < station_info_views(r@).len()
                                                && station_info_views(r@)[i2] == x;
                                        assert(r@[i2].id@ == sj);
                                    } else {
                                        if exists|i: int| 0 <= i < before.len() && #[trigger] before[i].id@ == sj {
                                            let i = choose|i: int| 0 <= i < before.len() && #[trigger] before[i].id@ == sj;
                                            assert(station_info_views(r@) == station_info_views(before));
                                            assert(station_info_views(before)[i].0 == sj);
                                            assert(station_info_views(r@)[i].0 == r@[i].id@);
                                        } else {
                                            let x = (sj, is_own(self@, own, sj));
                                            assert(station_info_views(r@).to_set().contains(x));
                                            let i2 = choose|i2: int|
                                                0 <= i2 < station_info_views(r@).len()
                                                    && station_info_views(r@)[i2] == x;
                                            assert(r@[i2].id@ == sj);
                                        }
                                    }
                                }
                            }
                        },
                        None => {
                            proof {
                                assert forall|j: int|
                                    0 <= j < k + 1 && listed(
                                        self@,
                                        *relevant,
                                        #[trigger] ids@[j]@,
                                    ) implies exists|i: int| 0 <= i < r@.len() && r@[i].id@ == ids@[j]@ by {
                                    if j == k {
                                        assert(!listed(self@, *relevant, sid));
                                    }
                                }
                            }
                        },
                    }
                    k = k + 1;
                }
                proof {
                    assert forall|sid: Seq<char>| #[trigger] listed(self@, *relevant, sid) implies exists|
                        i: int,
                    | 0 <= i < r@.len() && r@[i].id@ == sid by {
                        let j = choose|j: int| 0 <= j < idv.len() && idv[j] == sid;
                        assert(ids@[j]@ == sid);
                    }
                }
                r
            },
            RelevantStations::NoStations => r,
        }
    }
    /// Replaces the session at index `i` by `session`, of the same client.
    fn replace_client_at(&mut self, i: usize, session: ClientSession)
        requires
            old(self).wf(),
            i < old(self).clients@.len(),
            session@.info.id == old(self).clients@[i as int]@.info.id,
        ensures
            final(self).wf(),
            final(self).clients@.len() == old(self).clients@.len(),
            forall|j: int|
                0 <= j < final(self).clients@.len() ==> #[trigger] final(self).clients@[j]@.info.id
                    == old(self).clients@[j]@.info.id,
            final(self)@ == (ClientManagerView {
                clients: old(self)@.clients.insert(session@.info.id, session@),
                ..old(self)@
            }),
    {
        proof {
            crate::keyed::lemma_to_map_update(self.clients@, client_key(), client_val(), i as int, session);
        }
        let ghost before = self.clients@;
        let _ = self.clients.remove(i);
        self.clients.insert(i, session);
        assert(self.clients@ =~= before.update(i as int, session));
    }

    /// Takes `client_id` off the clients of `position_id`; a position left
    /// with at most that client goes offline.
    fn leave_position(&mut self, position_id: &Option<PositionId>, client_id: &ClientId)
        requires
            old(self).wf(),
        ensures
            final(self).wf(),
            final(self).clients@ == old(self).clients@,
            final(self)@ == (ClientManagerView {
                online_positions: left_position(
                    old(self)@.online_positions,
                    opt_position_view(*position_id),
                    client_id@,
                ),
                ..old(self)@
            }),
    {
        if let Some(p) = position_id {
            if let Some(j) = self.find_position(p) {
                if self.online_positions[j].clients.len() <= 1 {
                    let e = self.take_position_at(j);
                    proof {
                        lemma_client_set_len(e.clients@);
                    }
                } else {
                    let ghost op = self@.online_positions;
                    let mut e = self.take_position_at(j);
                    proof {
                        lemma_client_set_len(e.clients@);
                    }
                    remove_client(&mut e.clients, client_id);
                    self.put_position(e);
                    assert(self@.online_positions =~= op.insert(p@, op[p@].remove(client_id@)));
                }
            }
        }
    }

    /// Adds `client_id` to the clients of `position_id`.
    fn join_position(&mut self, position_id: &Option<PositionId>, client_id: &ClientId)
        requires
            old(self).wf(),
        ensures
            final(self).wf(),
            final(self).clients@ == old(self).clients@,
            final(self)@ == (ClientManagerView {
                online_positions: joined_position(
                    old(self)@.online_positions,
                    opt_position_view(*position_id),
                    client_id@,
                ),
                ..old(self)@
            }),
    {
        if let Some(p) = position_id {
            let ghost op = self@.online_positions;
            match self.find_position(p) {
                Some(j) => {
                    let mut e = self.take_position_at(j);
                    insert_client(&mut e.clients, client_id);
                    self.put_position(e);
                    assert(self@.online_positions =~= op.insert(p@, op[p@].insert(client_id@)));
                },
                None => {
                    let mut clients: Vec<ClientId> = Vec::new();
                    assert(client_set(clients@) =~= Set::<Seq<char>>::empty());
                    insert_client(&mut clients, client_id);
                    self.put_position(OnlinePosition { position_id: p.clone(), clients });
                    assert(self@.online_positions =~= op.insert(p@, set![client_id@]));
                },
            }
        }
    }

    /// Synchronises the client at index `i` with its entry in the data feed.
    fn sync_client(
        &mut self,
        i: usize,
        controllers: &Vec<ControllerInfo>,
        pending: &mut Vec<ClientId>,
        require_active_connection: bool,
        out: &mut SyncOutcome,
    )
        requires
            old(self).wf(),
            i < old(self).clients@.len(),
            clients_distinct(old(pending)@),
        ensures
            ({
                let c = old(self).clients@[i as int]@.info.id;
                let v0 = old(self)@;
                let p0 = client_set(old(pending)@).contains(c);
                &&& final(self).wf()
                &&& final(self).clients@.len() == old(self).clients@.len()
                &&& forall|j: int|
                    0 <= j < final(self).clients@.len() ==> #[trigger] final(self).clients@[j]@.info.id
                        == old(self).clients@[j]@.info.id
                &&& final(self)@.network == v0.network
                &&& final(self)@.vatsim_only == v0.vatsim_only
                &&& final(self)@.online_stations == v0.online_stations
                &&& final(self)@.clients == v0.clients.insert(c, synced_session(v0, controllers@, c))
                &&& final(self)@.online_positions == moved_positions(v0, controllers@, c)
                &&& clients_distinct(final(pending)@)
                &&& client_set(final(pending)@) == if synced_pending(
                    controllers@,
                    c,
                    p0,
                    require_active_connection,
                ) {
                    client_set(old(pending)@).insert(c)
                } else {
                    client_set(old(pending)@).remove(c)
                }
                &&& final(out).station_changes == old(out).station_changes
                &&& final(out).disconnected@.len() == old(out).disconnected@.len() + if is_disconnected(
                    v0,
                    controllers@,
                    c,
                    p0,
                    require_active_connection,
                ) {
                    1int
                } else {
                    0int
                }
                &&& forall|k: int|
                    0 <= k < old(out).disconnected@.len() ==> #[trigger] final(out).disconnected@[k]
                        == old(out).disconnected@[k]
                &&& is_disconnected(v0, controllers@, c, p0, require_active_connection) ==> ({
                    let d = final(out).disconnected@.last();
                    d.0@ == c && is_disconnect_reason(
                        v0,
                        controllers@,
                        c,
                        p0,
                        require_active_connection,
                        d.1,
                    )
                })
                &&& final(out).updated_clients@.len() == old(out).updated_clients@.len() + if refreshed(
                    v0,
                    controllers@,
                    c,
                ) {
                    1int
                } else {
                    0int
                }
                &&& forall|k: int|
                    0 <= k < old(out).updated_clients@.len() ==> #[trigger] final(out).updated_clients@[k] == old(out).updated_clients@[k]
                &&& refreshed(v0, controllers@, c) ==> final(out).updated_clients@.last()@
                    == synced_session(v0, controllers@, c).info
                &&& final(out).session_updates@.len() == old(out).session_updates@.len() + if refreshed(
                    v0,
                    controllers@,
                    c,
                ) && refreshed_position(v0, controllers@, c) != v0.clients[c].info.position_id {
                    1int
                } else {
                    0int
                }
                &&& forall|k: int|
                    0 <= k < old(out).session_updates@.len() ==> #[trigger] final(out).session_updates@[k] == old(out).session_updates@[k]
                &&& refreshed(v0, controllers@, c) && refreshed_position(v0, controllers@, c)
                    != v0.clients[c].info.position_id ==> ({
                    let u = final(out).session_updates@.last();
                    u.client_id@ == c && u.profile@ == synced_session(v0, controllers@, c).profile
                        && match u.position_id {
                        Some(p) => refreshed_position(v0, controllers@, c) == Some(p@),
                        None => refreshed_position(v0, controllers@, c) is None,
                    }
                })
            }),
    {
        let ghost v0 = self@;
        proof {
            lemma_to_map_index(self.clients@, client_key(), client_val(), i as int);
        }
        let cid = self.clients[i].info.id.clone();
        let was_pending = crate::sets::contains_client(pending, &cid);
        let found = find_controller(controllers, &cid);
        let active = match found {
            Some(k) => controllers[k].facility_type != FacilityType::Unknown,
            None => false,
        };
        if !active {
            if require_active_connection {
                if was_pending {
                    remove_client(pending, &cid);
                    out.disconnected.push((cid, DisconnectReason::NoActiveVatsimConnection));
                } else {
                    insert_client(pending, &cid);
                }
            } else {
                proof {
                    if was_pending {
                        assert(client_set(pending@).insert(cid@) =~= client_set(pending@));
                    } else {
                        assert(client_set(pending@).remove(cid@) =~= client_set(pending@));
                    }
                }
            }
            proof {
                assert(v0.clients.insert(cid@, v0.clients[cid@]) =~= v0.clients);
            }
            return ;
        }
        let k = match found {
            Some(k) => k,
            None => {
                return ;
            },
        };
        let ctrl = &controllers[k];
        remove_client(pending, &cid);
        let mut session = self.clients[i].clone();
        let updated = session.update_client_info(ctrl);
        if !updated {
            self.replace_client_at(i, session);
            return ;
        }
        let old_pos: Option<PositionId> = match &self.clients[i].info.position_id {
            Some(p) => Some(p.clone()),
            None => None,
        };
        let new_positions = self.network.find_positions(
            ctrl.callsign.as_str(),
            ctrl.frequency.as_str(),
            ctrl.facility_type,
        );
        proof {
            assert(new_positions@.len() == positions_of(v0.network, *ctrl).len());
        }
        if new_positions.len() > 1 {
            let mut ids: Vec<PositionId> = Vec::new();
            let mut q: usize = 0;
            while q < new_positions.len()
                invariant
                    0 <= q <= new_positions@.len(),
                    ids@.len() == q,
                    forall|t: int| 0 <= t < q ==> #[trigger] ids@[t]@ == new_positions@[t]@.id,
                decreases new_positions@.len() - q,
            {
                ids.push(new_positions[q].id.clone());
                q = q + 1;
            }
            proof {
                assert(ids@.map_values(|p: PositionId| p@) =~= position_ids_of(
                    positions_of(v0.network, *ctrl),
                )) by {
                    assert forall|t: int| 0 <= t < ids@.len() implies ids@.map_values(
                        |p: PositionId| p@,
                    )[t] == position_ids_of(positions_of(v0.network, *ctrl))[t] by {
                        assert(new_positions@.map_values(|p: &Position| p@)[t] == new_positions@[t]@);
                    }
                }
            }
            self.replace_client_at(i, session);
            out.disconnected.push((cid, DisconnectReason::AmbiguousVatsimPosition(ids)));
            return ;
        }
        let new_pos: Option<PositionId> = if new_positions.len() == 1 {
            proof {
                assert(new_positions@.map_values(|p: &Position| p@)[0] == new_positions@[0]@);
            }
            Some(new_positions[0].id.clone())
        } else {
            None
        };
        let new_profile_id: Option<ProfileId> = if new_positions.len() == 1 {
            proof {
                assert(new_positions@.map_values(|p: &Position| p@)[0] == new_positions@[0]@);
            }
            match &new_positions[0].profile_id {
                Some(id) => Some(id.clone()),
                None => None,
            }
        } else {
            None
        };
        let same = match (&old_pos, &new_pos) {
            (Some(a), Some(b)) => *a == *b,
            (None, None) => true,
            _ => false,
        };
        if !same {
            session.set_position_id(match &new_pos {
                Some(p) => Some(p.clone()),
                None => None,
            });
            let profile = session.update_active_profile(new_profile_id);
            self.leave_position(&old_pos, &cid);
            self.join_position(&new_pos, &cid);
            out.session_updates.push(SessionUpdate { client_id: cid.clone(), position_id: new_pos, profile });
        }
        let info = session.info.clone();
        self.replace_client_at(i, session);
        out.updated_clients.push(info);
    }
    /// The positions that the active controllers of `controllers` other than
    /// the clients match alone, where they have no vacs client.
    fn vatsim_only_positions(&self, controllers: &Vec<ControllerInfo>) -> (r: Vec<PositionId>)
        requires
            self.wf(),
        ensures
            online_set(r@) == vatsim_only_of(
                self@.network,
                controllers@,
                self@.clients.dom(),
                self@.online_positions.dom(),
            ),
    {
        let ghost target = vatsim_only_of(
            self@.network,
            controllers@,
            self@.clients.dom(),
            self@.online_positions.dom(),
        );
        let mut r: Vec<PositionId> = Vec::new();
        let mut k: usize = 0;
        while k < controllers.len()
            invariant
                0 <= k <= controllers@.len(),
                self.wf(),
                target == vatsim_only_of(
                    self@.network,
                    controllers@,
                    self@.clients.dom(),
                    self@.online_positions.dom(),
                ),
                forall|p: Seq<char>|
                    #[trigger] online_set(r@).contains(p) <==> exists|q: int|
                        0 <= q < k && controllers@[q].facility_type != FacilityType::Unknown
                            && !self@.clients.dom().contains(#[trigger] controllers@[q].cid@)
                            && positions_of(self@.network, controllers@[q]).len() == 1
                            && positions_of(self@.network, controllers@[q])[0].id == p
                            && !self@.online_positions.dom().contains(p),
            decreases controllers@.len() - k,
        {
            let ghost prev = r@;
            let ctrl = &controllers[k];
            if ctrl.facility_type != FacilityType::Unknown && !self.is_client_connected(&ctrl.cid) {
                let positions = self.network.find_positions(
                    ctrl.callsign.as_str(),
                    ctrl.frequency.as_str(),
                    ctrl.facility_type,
                );
                proof {
                    assert(positions@.len() == positions_of(self@.network, *ctrl).len());
                }
                if positions.len() == 1 {
                    proof {
                        assert(positions@.map_values(|p: &Position| p@)[0] == positions@[0]@);
                    }
                    if self.find_position(&positions[0].id).is_none() {
                        r.push(positions[0].id.clone());
                    }
                }
            }
            proof {
                assert forall|p: Seq<char>|
                    #[trigger] online_set(r@).contains(p) <==> exists|q: int|
                        0 <= q < k + 1 && controllers@[q].facility_type != FacilityType::Unknown
                            && !self@.clients.dom().contains(#[trigger] controllers@[q].cid@)
                            && positions_of(self@.network, controllers@[q]).len() == 1
                            && positions_of(self@.network, controllers@[q])[0].id == p
                            && !self@.online_positions.dom().contains(p) by {
                    if online_set(r@).contains(p) {
                        let t = choose|t: int| 0 <= t < r@.len() && r@[t]@ == p;
                        if t < prev.len() {
                            assert(online_set(prev).contains(p));
                        }
                    }
                    if exists|q: int|
                        0 <= q < k + 1 && controllers@[q].facility_type != FacilityType::Unknown
                            && !self@.clients.dom().contains(#[trigger] controllers@[q].cid@)
                            && positions_of(self@.network, controllers@[q]).len() == 1
                            && positions_of(self@.network, controllers@[q])[0].id == p
                            && !self@.online_positions.dom().contains(p) {
                        let q = choose|q: int|
                            0 <= q < k + 1 && controllers@[q].facility_type != FacilityType::Unknown
                                && !self@.clients.dom().contains(#[trigger] controllers@[q].cid@)
                                && positions_of(self@.network, controllers@[q]).len() == 1
                                && positions_of(self@.network, controllers@[q])[0].id == p
                                && !self@.online_positions.dom().contains(p);
                        if q < k {
                            assert(online_set(prev).contains(p));
                            let t = choose|t: int| 0 <= t < prev.len() && prev[t]@ == p;
                            assert(r@[t]@ == p);
                        } else {
                            assert(r@[r@.len() - 1]@ == p);
                        }
                    }
                }
            }
            k = k + 1;
        }
        assert(online_set(r@) =~= target);
        r
    }

    /// Synchronises the clients with the controllers of the VATSIM data feed.
    ///
    /// A client without an active controller (none, or one of unknown
    /// facility type) is marked for disconnection where an active connection
    /// is required, and disconnected when it was marked already. A client with
    /// an active controller loses its mark and takes the controller's
    /// callsign and frequency; where these changed, it is disconnected if the
    /// controller matches several positions, and otherwise moves to the
    /// position that it matches, or to none. The positions of the active
    /// controllers that are no clients, where they match one position without
    /// vacs clients, become the VATSIM-only positions, and the online stations
    /// follow the change of the positions online.
    pub fn sync_vatsim_state(
        &mut self,
        controllers: &Vec<ControllerInfo>,
        pending_disconnect: &mut Vec<ClientId>,
        require_active_connection: bool,
    ) -> (r: SyncOutcome)
        requires
            old(self).wf(),
            clients_distinct(old(pending_disconnect)@),
        ensures
            ({
                let v0 = old(self)@;
                let v = final(self)@;
                let cs = controllers@;
                let p0 = client_set(old(pending_disconnect)@);
                let p1 = client_set(final(pending_disconnect)@);
                let start = v0.online_positions.dom().union(v0.vatsim_only);
                let end = v.online_positions.dom().union(v.vatsim_only);
                let diff = all_changes(v0.network.stations, v0.network.positions, start, end);
                &&& final(self).wf()
                &&& v.network == v0.network
                &&& v.clients.dom() == v0.clients.dom()
                &&& forall|c: Seq<char>|
                    #[trigger] v0.clients.dom().contains(c) ==> v.clients[c] == synced_session(
                        v0,
                        cs,
                        c,
                    )
                &&& clients_distinct(final(pending_disconnect)@)
                &&& forall|c: Seq<char>|
                    #[trigger] p1.contains(c) == if v0.clients.dom().contains(c) {
                        synced_pending(cs, c, p0.contains(c), require_active_connection)
                    } else {
                        p0.contains(c)
                    }
                &&& forall|k: int|
                    0 <= k < r.disconnected@.len() ==> v0.clients.dom().contains(
                        #[trigger] r.disconnected@[k].0@,
                    ) && is_disconnect_reason(
                        v0,
                        cs,
                        r.disconnected@[k].0@,
                        p0.contains(r.disconnected@[k].0@),
                        require_active_connection,
                        r.disconnected@[k].1,
                    )
                &&& forall|c: Seq<char>|
                    #[trigger] v0.clients.dom().contains(c) && is_disconnected(
                        v0,
                        cs,
                        c,
                        p0.contains(c),
                        require_active_connection,
                    ) ==> exists|k: int| 0 <= k < r.disconnected@.len() && r.disconnected@[k].0@ == c
                &&& forall|k: int|
                    0 <= k < r.updated_clients@.len() ==> v0.clients.dom().contains(
                        #[trigger] r.updated_clients@[k]@.id,
                    ) && refreshed(v0, cs, r.updated_clients@[k]@.id) && r.updated_clients@[k]@
                        == v.clients[r.updated_clients@[k]@.id].info
                &&& forall|c: Seq<char>|
                    #[trigger] v0.clients.dom().contains(c) && refreshed(v0, cs, c) ==> exists|k: int|
                        0 <= k < r.updated_clients@.len() && r.updated_clients@[k]@.id == c
                &&& forall|k: int|
                    0 <= k < r.session_updates@.len() ==> v0.clients.dom().contains(
                        #[trigger] r.session_updates@[k].client_id@,
                    ) && v.clients[r.session_updates@[k].client_id@].info.position_id
                        != v0.clients[r.session_updates@[k].client_id@].info.position_id
                        && v.clients[r.session_updates@[k].client_id@].info.position_id == match r.session_updates@[k].position_id {
                        Some(p) => Some(p@),
                        None => None,
                    }
                &&& forall|k: int|
                    0 <= k < r.session_updates@.len() ==> (#[trigger] r.session_updates@[k]).profile@
                        == v.clients[r.session_updates@[k].client_id@].profile
                &&& forall|c: Seq<char>|
                    #[trigger] v0.clients.dom().contains(c) && v.clients[c].info.position_id
                        != v0.clients[c].info.position_id ==> exists|k: int|
                        0 <= k < r.session_updates@.len() && r.session_updates@[k].client_id@ == c
                &&& forall|a: int, b: int|
                    0 <= a < b < r.disconnected@.len() ==> r.disconnected@[a].0@
                        != r.disconnected@[b].0@
                &&& forall|a: int, b: int|
                    0 <= a < b < r.updated_clients@.len() ==> r.updated_clients@[a]@.id
                        != r.updated_clients@[b]@.id
                &&& forall|a: int, b: int|
                    0 <= a < b < r.session_updates@.len() ==> r.session_updates@[a].client_id@
                        != r.session_updates@[b].client_id@
                &&& positions_consistent(v0) ==> positions_consistent(v)
                &&& v.vatsim_only == vatsim_only_of(
                    v0.network,
                    cs,
                    v0.clients.dom(),
                    v.online_positions.dom(),
                )
                &&& v.online_stations == stations_after(v0.online_stations, diff)
                &&& changes_view(r.station_changes@) == visible_changes(
                    diff,
                    v.online_positions.dom(),
                )
            }),
    {
        let ghost v0 = self@;
        let ghost p0 = client_set(pending_disconnect@);
        let ghost ids0 = self.clients@.map_values(|s: ClientSession| s@.info.id);
        let start = self.all_positions();
        let mut out = SyncOutcome {
            disconnected: Vec::new(),
            updated_clients: Vec::new(),
            session_updates: Vec::new(),
            station_changes: Vec::new(),
        };
        let mut i: usize = 0;
        while i < self.clients.len()
            invariant
                0 <= i <= self.clients@.len(),
                self.wf(),
                self.clients@.len() == ids0.len(),
                forall|j: int| 0 <= j < ids0.len() ==> #[trigger] self.clients@[j]@.info.id == ids0[j],
                self@.network == v0.network,
                self@.vatsim_only == v0.vatsim_only,
                self@.online_stations == v0.online_stations,
                online_set(start@) == v0.online_positions.dom().union(v0.vatsim_only),
                v0.clients.dom() == self@.clients.dom(),
                positions_consistent(v0) ==> positions_consistent(self@),
                forall|c: Seq<char>|
                    #[trigger] self@.clients.dom().contains(c) ==> self@.clients[c] == if exists|j: int|
                        0 <= j < i && ids0[j] == c {
                        synced_session(v0, controllers@, c)
                    } else {
                        v0.clients[c]
                    },
                clients_distinct(pending_disconnect@),
                forall|c: Seq<char>|
                    #[trigger] client_set(pending_disconnect@).contains(c) == if exists|j: int|
                        0 <= j < i && ids0[j] == c {
                        synced_pending(controllers@, c, p0.contains(c), require_active_connection)
                    } else {
                        p0.contains(c)
                    },
                out.station_changes@.len() == 0,
                forall|k: int|
                    0 <= k < out.disconnected@.len() ==> v0.clients.dom().contains(
                        #[trigger] out.disconnected@[k].0@,
                    ) && is_disconnect_reason(
                        v0,
                        controllers@,
                        out.disconnected@[k].0@,
                        p0.contains(out.disconnected@[k].0@),
                        require_active_connection,
                        out.disconnected@[k].1,
                    ),
                forall|j: int|
                    0 <= j < i && is_disconnected(
                        v0,
                        controllers@,
                        #[trigger] ids0[j],
                        p0.contains(ids0[j]),
                        require_active_connection,
                    ) ==> exists|k: int|
                        0 <= k < out.disconnected@.len() && out.disconnected@[k].0@ == ids0[j],
                forall|k: int|
                    0 <= k < out.updated_clients@.len() ==> v0.clients.dom().contains(
                        #[trigger] out.updated_clients@[k]@.id,
                    ) && refreshed(v0, controllers@, out.updated_clients@[k]@.id)
                        && out.updated_clients@[k]@ == synced_session(
                        v0,
                        controllers@,
                        out.updated_clients@[k]@.id,
                    ).info,
                forall|j: int|
                    0 <= j < i && refreshed(v0, controllers@, #[trigger] ids0[j]) ==> exists|k: int|
                        0 <= k < out.updated_clients@.len() && out.updated_clients@[k]@.id == ids0[j],
                forall|k: int|
                    0 <= k < out.session_updates@.len() ==> v0.clients.dom().contains(
                        #[trigger] out.session_updates@[k].client_id@,
                    ) && refreshed(v0, controllers@, out.session_updates@[k].client_id@)
                        && refreshed_position(v0, controllers@, out.session_updates@[k].client_id@)
                        != v0.clients[out.session_updates@[k].client_id@].info.position_id
                        && refreshed_position(v0, controllers@, out.session_updates@[k].client_id@)
                        == match out.session_updates@[k].position_id {
                        Some(p) => Some(p@),
                        None => None,
                    },
                forall|k: int|
                    0 <= k < out.disconnected@.len() ==> seen_before(ids0, i as int, #[trigger] out.disconnected@[k].0@),
                forall|k: int|
                    0 <= k < out.updated_clients@.len() ==> seen_before(ids0, i as int, #[trigger] out.updated_clients@[k]@.id),
                forall|k: int|
                    0 <= k < out.session_updates@.len() ==> seen_before(ids0, i as int, #[trigger] out.session_updates@[k].client_id@),
                forall|k: int|
                    0 <= k < out.session_updates@.len() ==> (#[trigger] out.session_updates@[k]).profile@
                        == synced_session(v0, controllers@, out.session_updates@[k].client_id@).profile,
                forall|a: int, b: int|
                    0 <= a < b < out.disconnected@.len() ==> out.disconnected@[a].0@
                        != out.disconnected@[b].0@,
                forall|a: int, b: int|
                    0 <= a < b < out.updated_clients@.len() ==> out.updated_clients@[a]@.id
                        != out.updated_clients@[b]@.id,
                forall|a: int, b: int|
                    0 <= a < b < out.session_updates@.len() ==> out.session_updates@[a].client_id@
                        != out.session_updates@[b].client_id@,
                forall|j: int|
                    0 <= j < i && refreshed(v0, controllers@, #[trigger] ids0[j])
                        && refreshed_position(v0, controllers@, ids0[j]) != v0.clients[ids0[j]].info.position_id
                        ==> exists|k: int|
                        0 <= k < out.session_updates@.len() && out.session_updates@[k].client_id@ == ids0[j],
            decreases ids0.len() - i,
        {
            let ghost before_self = self@;
            let ghost before_pending = client_set(pending_disconnect@);
            let ghost before_out_d = out.disconnected@;
            let ghost before_out_u = out.updated_clients@;
            let ghost before_out_s = out.session_updates@;
            let ghost c = ids0[i as int];
            proof {
                lemma_to_map_index(self.clients@, client_key(), client_val(), i as int);
                assert(!(exists|j: int| 0 <= j < i && ids0[j] == c)) by {
                    if exists|j: int| 0 <= j < i && ids0[j] == c {
                        let j = choose|j: int| 0 <= j < i && ids0[j] == c;
                        assert(self.clients@[j]@.info.id == self.clients@[i as int]@.info.id);
                    }
                }
                assert(before_self.clients[c] == v0.clients[c]);
                assert(before_pending.contains(c) == p0.contains(c));
            }
            self.sync_client(i, controllers, pending_disconnect, require_active_connection, &mut out);
            proof {
                if positions_consistent(v0) {
                    lemma_sync_keeps_positions_consistent(before_self, controllers@, c);
                    assert(self@ == ClientManagerView {
                        clients: before_self.clients.insert(c, synced_session(before_self, controllers@, c)),
                        online_positions: moved_positions(before_self, controllers@, c),
                        ..before_self
                    });
                }
                assert(synced_session(before_self, controllers@, c) == synced_session(v0, controllers@, c)) by {
                    assert(before_self.clients[c] == v0.clients[c]);
                }
                assert(refreshed(before_self, controllers@, c) == refreshed(v0, controllers@, c));
                assert(is_disconnected(before_self, controllers@, c, p0.contains(c), require_active_connection)
                    == is_disconnected(v0, controllers@, c, p0.contains(c), require_active_connection));
                assert forall|cc: Seq<char>|
                    #[trigger] self@.clients.dom().contains(cc) implies self@.clients[cc] == if exists|j: int|
                        0 <= j < i + 1 && ids0[j] == cc {
                        synced_session(v0, controllers@, cc)
                    } else {
                        v0.clients[cc]
                    } by {
                    if cc != c {
                        if exists|j: int| 0 <= j < i + 1 && ids0[j] == cc {
                            let j = choose|j: int| 0 <= j < i + 1 && ids0[j] == cc;
                            assert(j != i);
                        }
                    } else {
                        assert(ids0[i as int] == cc);
                    }
                }
                assert forall|cc: Seq<char>|
                    #[trigger] client_set(pending_disconnect@).contains(cc) == if exists|j: int|
                        0 <= j < i + 1 && ids0[j] == cc {
                        synced_pending(controllers@, cc, p0.contains(cc), require_active_connection)
                    } else {
                        p0.contains(cc)
                    } by {
                    if cc != c {
                        assert(before_pending.contains(cc) == client_set(pending_disconnect@).contains(cc));
                        if exists|j: int| 0 <= j < i + 1 && ids0[j] == cc {
                            let j = choose|j: int| 0 <= j < i + 1 && ids0[j] == cc;
                            assert(j != i);
                        }
                    } else {
                        assert(ids0[i as int] == cc);
                    }
                }
                assert forall|k: int|
                    0 <= k < out.disconnected@.len() implies v0.clients.dom().contains(
                        #[trigger] out.disconnected@[k].0@,
                    ) && is_disconnect_reason(
                        v0,
                        controllers@,
                        out.disconnected@[k].0@,
                        p0.contains(out.disconnected@[k].0@),
                        require_active_connection,
                        out.disconnected@[k].1,
                    ) by {
                    if k < before_out_d.len() {
                        assert(out.disconnected@[k] == before_out_d[k]);
                    } else {
                        assert(k == out.disconnected@.len() - 1);
                    }
                }
                assert forall|j: int|
                    0 <= j < i + 1 && is_disconnected(
                        v0,
                        controllers@,
                        #[trigger] ids0[j],
                        p0.contains(ids0[j]),
                        require_active_connection,
                    ) implies exists|k: int|
                    0 <= k < out.disconnected@.len() && out.disconnected@[k].0@ == ids0[j] by {
                    if j < i {
                        let k = choose|k: int|
                            0 <= k < before_out_d.len() && before_out_d[k].0@ == ids0[j];
                        assert(out.disconnected@[k] == before_out_d[k]);
                    } else {
                        assert(out.disconnected@[out.disconnected@.len() - 1].0@ == ids0[j]);
                    }
                }
                assert forall|k: int|
                    0 <= k < out.updated_clients@.len() implies v0.clients.dom().contains(
                        #[trigger] out.updated_clients@[k]@.id,
                    ) && refreshed(v0, controllers@, out.updated_clients@[k]@.id)
                        && out.updated_clients@[k]@ == synced_session(
                        v0,
                        controllers@,
                        out.updated_clients@[k]@.id,
                    ).info by {
                    if k < before_out_u.len() {
                        assert(out.updated_clients@[k] == before_out_u[k]);
                    } else {
                        assert(k == out.updated_clients@.len() - 1);
                    }
                }
                assert forall|j: int|
                    0 <= j < i + 1 && refreshed(v0, controllers@, #[trigger] ids0[j]) implies exists|
                        k: int,
                    | 0 <= k < out.updated_clients@.len() && out.updated_clients@[k]@.id == ids0[j] by {
                    if j < i {
                        let k = choose|k: int|
                            0 <= k < before_out_u.len() && before_out_u[k]@.id == ids0[j];
                        assert(out.updated_clients@[k] == before_out_u[k]);
                    } else {
                        assert(out.updated_clients@[out.updated_clients@.len() - 1]@.id == ids0[j]);
                    }
                }
                assert forall|k: int|
                    0 <= k < out.session_updates@.len() implies v0.clients.dom().contains(
                        #[trigger] out.session_updates@[k].client_id@,
                    ) && refreshed(v0, controllers@, out.session_updates@[k].client_id@)
                        && refreshed_position(v0, controllers@, out.session_updates@[k].client_id@)
                        != v0.clients[out.session_updates@[k].client_id@].info.position_id
                        && refreshed_position(v0, controllers@, out.session_updates@[k].client_id@)
                        == match out.session_updates@[k].position_id {
                        Some(p) => Some(p@),
                        None => None,
                    } by {
                    if k < before_out_s.len() {
                        assert(out.session_updates@[k] == before_out_s[k]);
                    } else {
                        assert(k == out.session_updates@.len() - 1);
                    }
                }
            }
            proof {
                assert(!seen_before(ids0, i as int, c));
                assert forall|cc: Seq<char>| seen_before(ids0, i as int, cc) implies seen_before(
                    ids0,
                    i + 1,
                    cc,
                ) by {
                    let j = choose|j: int| 0 <= j < i && ids0[j] == cc;
                    assert(0 <= j < i + 1 && ids0[j] == cc);
                }
                assert(seen_before(ids0, i + 1, c)) by {
                    assert(ids0[i as int] == c);
                }
                assert forall|k: int| 0 <= k < out.disconnected@.len() implies seen_before(
                    ids0,
                    i + 1,
                    #[trigger] out.disconnected@[k].0@,
                ) by {
                    if k < before_out_d.len() {
                        assert(out.disconnected@[k] == before_out_d[k]);
                    }
                }
                assert forall|a: int, b: int|
                    0 <= a < b < out.disconnected@.len() implies out.disconnected@[a].0@
                        != out.disconnected@[b].0@ by {
                    assert(out.disconnected@[a] == before_out_d[a]);
                    assert(seen_before(ids0, i as int, before_out_d[a].0@));
                    if b < before_out_d.len() {
                        assert(out.disconnected@[b] == before_out_d[b]);
                    }
                }
                assert forall|k: int| 0 <= k < out.updated_clients@.len() implies seen_before(
                    ids0,
                    i + 1,
                    #[trigger] out.updated_clients@[k]@.id,
                ) by {
                    if k < before_out_u.len() {
                        assert(out.updated_clients@[k] == before_out_u[k]);
                    }
                }
                assert forall|a: int, b: int|
                    0 <= a < b < out.updated_clients@.len() implies out.updated_clients@[a]@.id
                        != out.updated_clients@[b]@.id by {
                    assert(out.updated_clients@[a] == before_out_u[a]);
                    assert(seen_before(ids0, i as int, before_out_u[a]@.id));
                    if b < before_out_u.len() {
                        assert(out.updated_clients@[b] == before_out_u[b]);
                    }
                }
                assert forall|k: int| 0 <= k < out.session_updates@.len() implies seen_before(
                    ids0,
                    i + 1,
                    #[trigger] out.session_updates@[k].client_id@,
                ) by {
                    if k < before_out_s.len() {
                        assert(out.session_updates@[k] == before_out_s[k]);
                    }
                }
                assert forall|k: int|
                    0 <= k < out.session_updates@.len() implies (#[trigger] out.session_updates@[k]).profile@
                        == synced_session(v0, controllers@, out.session_updates@[k].client_id@).profile by {
                    if k < before_out_s.len() {
                        assert(out.session_updates@[k] == before_out_s[k]);
                    }
                }
                assert forall|a: int, b: int|
                    0 <= a < b < out.session_updates@.len() implies out.session_updates@[a].client_id@
                        != out.session_updates@[b].client_id@ by {
                    assert(out.session_updates@[a] == before_out_s[a]);
                    assert(seen_before(ids0, i as int, before_out_s[a].client_id@));
                    if b < before_out_s.len() {
                        assert(out.session_updates@[b] == before_out_s[b]);
                    }
                }
                assert forall|j: int|
                    0 <= j < i + 1 && refreshed(v0, controllers@, #[trigger] ids0[j])
                        && refreshed_position(v0, controllers@, ids0[j]) != v0.clients[ids0[j]].info.position_id
                        implies exists|k: int|
                        0 <= k < out.session_updates@.len() && out.session_updates@[k].client_id@ == ids0[j] by {
                    if j < i {
                        let k = choose|k: int|
                            0 <= k < before_out_s.len() && before_out_s[k].client_id@ == ids0[j];
                        assert(out.session_updates@[k] == before_out_s[k]);
                    } else {
                        assert(out.session_updates@[out.session_updates@.len() - 1].client_id@ == ids0[j]);
                    }
                }
            }
            i = i + 1;
        }
        proof {
            assert forall|c: Seq<char>| #[trigger] v0.clients.dom().contains(c) implies exists|j: int|
                0 <= j < ids0.len() && ids0[j] == c by {
                lemma_to_map_dom(self.clients@, client_key(), client_val(), c);
                let j = choose|j: int| 0 <= j < self.clients@.len() && self.clients@[j]@.info.id == c;
                assert(ids0[j] == c);
            }
            assert forall|j: int| 0 <= j < ids0.len() implies v0.clients.dom().contains(#[trigger] ids0[j]) by {
                lemma_to_map_index(self.clients@, client_key(), client_val(), j);
            }
            assert forall|c: Seq<char>|
                #[trigger] v0.clients.dom().contains(c) && is_disconnected(
                    v0,
                    controllers@,
                    c,
                    p0.contains(c),
                    require_active_connection,
                ) implies exists|k: int| 0 <= k < out.disconnected@.len() && out.disconnected@[k].0@ == c by {
                let j = choose|j: int| 0 <= j < ids0.len() && ids0[j] == c;
                assert(is_disconnected(v0, controllers@, ids0[j], p0.contains(ids0[j]), require_active_connection));
            }
            assert forall|c: Seq<char>|
                #[trigger] v0.clients.dom().contains(c) && refreshed(v0, controllers@, c) implies exists|
                    k: int,
                | 0 <= k < out.updated_clients@.len() && out.updated_clients@[k]@.id == c by {
                let j = choose|j: int| 0 <= j < ids0.len() && ids0[j] == c;
                assert(refreshed(v0, controllers@, ids0[j]));
            }
        }
        let vatsim_only = self.vatsim_only_positions(controllers);
        self.vatsim_only = vatsim_only;
        let end = self.all_positions();
        let diff = self.network.coverage_diff(&start, &end);
        self.update_online_stations(&diff);
        let online = self.position_ids();
        out.station_changes = Self::client_visible_changes(&diff, &online);
        proof {
            assert forall|c: Seq<char>| #[trigger] v0.clients.dom().contains(c) implies self@.clients[c]
                == synced_session(v0, controllers@, c) by {
                assert(exists|j: int| 0 <= j < ids0.len() && ids0[j] == c);
            }
            assert forall|c: Seq<char>|
                #[trigger] client_set(pending_disconnect@).contains(c) == if v0.clients.dom().contains(c) {
                    synced_pending(controllers@, c, p0.contains(c), require_active_connection)
                } else {
                    p0.contains(c)
                } by {
                if v0.clients.dom().contains(c) {
                    assert(exists|j: int| 0 <= j < ids0.len() && ids0[j] == c);
                } else {
                    if exists|j: int| 0 <= j < ids0.len() && ids0[j] == c {
                        let j = choose|j: int| 0 <= j < ids0.len() && ids0[j] == c;
                        assert(v0.clients.dom().contains(ids0[j]));
                    }
                }
            }
            assert forall|k: int|
                0 <= k < out.updated_clients@.len() implies v0.clients.dom().contains(
                    #[trigger] out.updated_clients@[k]@.id,
                ) && refreshed(v0, controllers@, out.updated_clients@[k]@.id) && out.updated_clients@[k]@
                    == self@.clients[out.updated_clients@[k]@.id].info by {
                let c = out.updated_clients@[k]@.id;
                assert(self@.clients[c] == synced_session(v0, controllers@, c));
            }
            assert forall|k: int|
                0 <= k < out.session_updates@.len() implies v0.clients.dom().contains(
                    #[trigger] out.session_updates@[k].client_id@,
                ) && self@.clients[out.session_updates@[k].client_id@].info.position_id
                    != v0.clients[out.session_updates@[k].client_id@].info.position_id
                    && self@.clients[out.session_updates@[k].client_id@].info.position_id == match out.session_updates@[k].position_id {
                    Some(p) => Some(p@),
                    None => None,
                } by {
                let c = out.session_updates@[k].client_id@;
                assert(self@.clients[c] == synced_session(v0, controllers@, c));
            }
            assert forall|c: Seq<char>|
                #[trigger] v0.clients.dom().contains(c) && is_disconnected(
                    v0,
                    controllers@,
                    c,
                    p0.contains(c),
                    require_active_connection,
                ) implies exists|k: int| 0 <= k < out.disconnected@.len() && out.disconnected@[k].0@ =~= c by {
                let k = choose|k: int| 0 <= k < out.disconnected@.len() && out.disconnected@[k].0@ == c;
                assert(out.disconnected@[k].0@ =~= c);
            }
            assert forall|c: Seq<char>|
                #[trigger] v0.clients.dom().contains(c) && refreshed(v0, controllers@, c) implies exists|
                    k: int,
                | 0 <= k < out.updated_clients@.len() && out.updated_clients@[k]@.id =~= c by {
                let k = choose|k: int| 0 <= k < out.updated_clients@.len() && out.updated_clients@[k]@.id == c;
                assert(out.updated_clients@[k]@.id =~= c);
            }
        }
        out
    }
    /// The changes of `changes` that clients see while the positions in
    /// `online_positions` have vacs clients.
    pub fn client_visible_changes(changes: &Vec<StationChange>, online_positions: &Vec<PositionId>) -> (r:
        Vec<StationChange>)
        ensures
            changes_view(r@) == visible_changes(
                changes_view(changes@),
                crate::coverage::network::online_set(online_positions@),
            ),
    {
        let ghost online = crate::coverage::network::online_set(online_positions@);
        let mut r: Vec<StationChange> = Vec::new();
        let mut i: usize = 0;
        assert(changes_view(changes@).subrange(0, 0) =~= Seq::<StationChangeView>::empty());
        while i < changes.len()
            invariant
                0 <= i <= changes@.len(),
                online == crate::coverage::network::online_set(online_positions@),
                changes_view(r@) == visible_changes(
                    changes_view(changes@).subrange(0, i as int),
                    online,
                ),
            decreases changes@.len() - i,
        {
            let ghost sub = changes_view(changes@).subrange(0, i + 1);
            proof {
                assert(sub.drop_last() =~= changes_view(changes@).subrange(0, i as int));
                assert(sub.last() == changes@[i as int]@);
            }
            let ghost prev = r@;
            match &changes[i] {
                StationChange::Online { position_id, .. } => {
                    if contains_position(online_positions, position_id) {
                        r.push(changes[i].clone());
                    }
                },
                StationChange::Handoff { station_id, from_position_id, to_position_id } => {
                    let from_vacs = contains_position(online_positions, from_position_id);
                    let to_vacs = contains_position(online_positions, to_position_id);
                    if from_vacs && to_vacs {
                        r.push(changes[i].clone());
                    } else if from_vacs {
                        r.push(StationChange::Offline { station_id: station_id.clone() });
                    } else if to_vacs {
                        r.push(
                            StationChange::Online {
                                station_id: station_id.clone(),
                                position_id: to_position_id.clone(),
                            },
                        );
                    }
                },
                StationChange::Offline { .. } => {
                    r.push(changes[i].clone());
                },
            }
            proof {
                if r@.len() > prev.len() {
                    assert(changes_view(r@) =~= changes_view(prev).push(r@.last()@));
                } else {
                    assert(changes_view(r@) =~= changes_view(prev));
                }
            }
            i = i + 1;
        }
        assert(changes_view(changes@).subrange(0, changes@.len() as int) =~= changes_view(changes@));
        r
    }
}

/// The views of the client infos `v`.
pub open spec fn info_views(v: Seq<ClientInfo>) -> Seq<ClientInfoView> {
    v.map_values(|c: ClientInfo| c@)
}

/// The client infos are sorted by identifier, without repeats.
pub open spec fn infos_sorted(s: Seq<ClientInfoView>) -> bool {
    forall|i: int, j: int| 0 <= i < j < s.len() ==> seq_lt(#[trigger] s[i].id, #[trigger] s[j].id)
}

/// Inserts `x` into `v`, kept sorted by identifier.
fn insert_info_sorted(v: &mut Vec<ClientInfo>, x: ClientInfo)
    requires
        infos_sorted(info_views(old(v)@)),
        forall|i: int| 0 <= i < old(v)@.len() ==> #[trigger] old(v)@[i]@.id != x@.id,
    ensures
        infos_sorted(info_views(final(v)@)),
        info_views(final(v)@).to_set() == info_views(old(v)@).to_set().insert(x@),
{
    let ghost old_views = info_views(v@);
    let mut k: usize = 0;
    while k < v.len()
        invariant
            k <= v.len(),
            old_views == info_views(v@),
            infos_sorted(old_views),
            forall|i: int| 0 <= i < v@.len() ==> #[trigger] v@[i]@.id != x@.id,
            forall|j: int| 0 <= j < k ==> seq_lt(#[trigger] old_views[j].id, x@.id),
        ensures
            k <= v.len(),
            old_views == info_views(v@),
            forall|j: int| 0 <= j < k ==> seq_lt(#[trigger] old_views[j].id, x@.id),
            k < v.len() ==> seq_lt(x@.id, old_views[k as int].id),
        decreases v.len() - k,
    {
        if str_lt(x.id.as_str(), v[k].id.as_str()) {
            break;
        }
        proof {
            assert(old_views[k as int].id == v@[k as int]@.id);
            lemma_seq_lt_total(old_views[k as int].id, x@.id);
        }
        k = k + 1;
    }
    let ghost xv = x@;
    let ghost kk = k as int;
    v.insert(k, x);
    proof {
        let nv = info_views(v@);
        assert(nv =~= old_views.insert(kk, xv));
        lemma_insert_to_set(old_views, kk, xv);
        assert forall|i: int, j: int| 0 <= i < j < nv.len() implies seq_lt(
            #[trigger] nv[i].id,
            #[trigger] nv[j].id,
        ) by {
            if j < kk {
                assert(seq_lt(old_views[i].id, old_views[j].id));
            } else if j == kk {
                assert(seq_lt(old_views[i].id, xv.id));
            } else if i == kk {
                if j - 1 > kk {
                    assert(seq_lt(old_views[kk].id, old_views[j - 1].id));
                    lemma_seq_lt_transitive(xv.id, old_views[kk].id, old_views[j - 1].id);
                }
            } else if i < kk {
                assert(seq_lt(old_views[i].id, xv.id));
                if j - 1 > kk {
                    assert(seq_lt(old_views[kk].id, old_views[j - 1].id));
                    lemma_seq_lt_transitive(xv.id, old_views[kk].id, old_views[j - 1].id);
                }
                lemma_seq_lt_transitive(old_views[i].id, xv.id, old_views[j - 1].id);
            } else {
                assert(seq_lt(old_views[i - 1].id, old_views[j - 1].id));
            }
        }
    }
}

/// The views of the station infos `v`.
pub open spec fn station_info_views(v: Seq<StationInfo>) -> Seq<(Seq<char>, bool)> {
    v.map_values(|s: StationInfo| (s.id@, s.own))
}

/// The station infos are sorted by identifier, without repeats.
pub open spec fn station_infos_sorted(s: Seq<(Seq<char>, bool)>) -> bool {
    forall|i: int, j: int| 0 <= i < j < s.len() ==> seq_lt(#[trigger] s[i].0, #[trigger] s[j].0)
}

/// Inserts `x` into `v`, kept sorted by identifier, unless a station with its
/// identifier is there already.
fn insert_station_info_sorted(v: &mut Vec<StationInfo>, x: StationInfo)
    requires
        station_infos_sorted(station_info_views(old(v)@)),
    ensures
        station_infos_sorted(station_info_views(final(v)@)),
        (exists|i: int| 0 <= i < old(v)@.len() && #[trigger] old(v)@[i].id@ == x.id@)
            ==> station_info_views(final(v)@) == station_info_views(old(v)@),
        !(exists|i: int| 0 <= i < old(v)@.len() && #[trigger] old(v)@[i].id@ == x.id@)
            ==> station_info_views(final(v)@).to_set() == station_info_views(old(v)@).to_set().insert(
            (x.id@, x.own),
        ),
{
    let ghost old_views = station_info_views(v@);
    let mut k: usize = 0;
    while k < v.len()
        invariant
            k <= v.len(),
            old_views == station_info_views(v@),
            station_infos_sorted(old_views),
            forall|j: int| 0 <= j < k ==> seq_lt(#[trigger] old_views[j].0, x.id@),
        ensures
            k <= v.len(),
            old_views == station_info_views(v@),
            forall|j: int| 0 <= j < k ==> seq_lt(#[trigger] old_views[j].0, x.id@),
            k < v.len() ==> !seq_lt(old_views[k as int].0, x.id@),
        decreases v.len() - k,
    {
        if !str_lt(v[k].id.as_str(), x.id.as_str()) {
            break;
        }
        k = k + 1;
    }
    if k < v.len() && v[k].id == x.id {
        return ;
    }
    proof {
        if k < v.len() {
            lemma_seq_lt_total(old_views[k as int].0, x.id@);
        }
        if exists|i: int| 0 <= i < v@.len() && #[trigger] v@[i].id@ == x.id@ {
            let i = choose|i: int| 0 <= i < v@.len() && #[trigger] v@[i].id@ == x.id@;
            assert(old_views[i].0 == x.id@);
            if i < k {
                crate::text::lemma_seq_lt_irreflexive(x.id@);
            } else if i > k {
                assert(seq_lt(old_views[k as int].0, old_views[i].0));
            }
        }
    }
    let ghost xv = (x.id@, x.own);
    let ghost kk = k as int;
    v.insert(k, x);
    proof {
        let nv = station_info_views(v@);
        assert(nv =~= old_views.insert(kk, xv));
        lemma_insert_to_set(old_views, kk, xv);
        assert forall|i: int, j: int| 0 <= i < j < nv.len() implies seq_lt(
            #[trigger] nv[i].0,
            #[trigger] nv[j].0,
        ) by {
            if j < kk {
                assert(seq_lt(old_views[i].0, old_views[j].0));
            } else if j == kk {
                assert(seq_lt(old_views[i].0, xv.0));
            } else if i == kk {
                if j - 1 > kk {
                    assert(seq_lt(old_views[kk].0, old_views[j - 1].0));
                    lemma_seq_lt_transitive(xv.0, old_views[kk].0, old_views[j - 1].0);
                }
            } else if i < kk {
                assert(seq_lt(old_views[i].0, xv.0));
                if j - 1 > kk {
                    assert(seq_lt(old_views[kk].0, old_views[j - 1].0));
                    lemma_seq_lt_transitive(xv.0, old_views[kk].0, old_views[j - 1].0);
                }
                lemma_seq_lt_transitive(old_views[i].0, xv.0, old_views[j - 1].0);
            } else {
                assert(seq_lt(old_views[i - 1].0, old_views[j - 1].0));
            }
        }
    }
}

/// A copy of `v`, member by member.
fn clone_ids(v: &Vec<ClientId>) -> (r: Vec<ClientId>)
    ensures
        client_set(r@) == client_set(v@),
        clients_distinct(v@) ==> clients_distinct(r@),
{
    let mut r: Vec<ClientId> = Vec::new();
    let mut i: usize = 0;
    while i < v.len()
        invariant
            0 <= i <= v.len(),
            r@.len() == i,
            forall|j: int| 0 <= j < i ==> #[trigger] r@[j]@ == v@[j]@,
        decreases v.len() - i,
    {
        r.push(v[i].clone());
        i = i + 1;
    }
    assert(crate::sets::client_ids(r@) =~= crate::sets::client_ids(v@));
    r
}

} // verus!
