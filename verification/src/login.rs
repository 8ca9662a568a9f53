//! The decisions of the websocket login: which position a controller logs in
//! at, what the server tells of the new client, and which profile it starts
//! with. Receiving the login message, checking its token and asking VATSIM
//! for the controller are left to the caller, which hands the answers in.
use crate::clients::manager::{is_active, positions_of, position_ids_of, ClientManager};
use crate::clients::{ActiveProfile, ActiveProfileView, ClientInfo, ClientInfoView};
use crate::coverage::position::{Position, PositionView};
use crate::facility::ControllerInfo;
use crate::ids::{ClientId, PositionId};
use crate::metrics::LoginFailureReason;
use crate::text::string_concat;
use vstd::prelude::*;

verus! {

/// Whether the `semver` crate reads `text` as a semantic version.
pub uninterp spec fn semver_parses(text: Seq<char>) -> bool;

/// Whether the `semver` crate reads `req` as a version requirement.
pub uninterp spec fn semver_req_parses(req: Seq<char>) -> bool;

/// Whether the version requirement `req` admits the version `version`, as
/// the `semver` crate decides it.
pub uninterp spec fn semver_req_matches(req: Seq<char>, version: Seq<char>) -> bool;

/// `semver::VersionReq::parse(req)` and `semver::Version::parse(version)`,
/// then `VersionReq::matches`: `None` where either text does not parse,
/// otherwise whether the requirement admits the version. The crate decides
/// each from the texts alone (named, not restated); it returns errors and
/// does not panic.
#[verifier::external_body]
fn semver_req_match(req: &str, version: &str) -> (r: Option<bool>)
    ensures
        r is Some <==> (semver_req_parses(req@) && semver_parses(version@)),
        r matches Some(b) ==> b == semver_req_matches(req@, version@),
{
    match (semver::VersionReq::parse(req), semver::Version::parse(version)) {
        (Ok(q), Ok(v)) => Some(q.matches(&v)),
        _ => None,
    }
}

/// Checks the protocol version that a client logs in with against the
/// versions that the server is compatible with, `compatible`, a semantic
/// version requirement: a version that is no semantic version, or that the
/// requirement does not admit, is refused as incompatible; so is every
/// version where the requirement itself does not parse.
pub fn check_protocol_version(version: &str, compatible: &str) -> (r: Result<(), LoginFailureReason>)
    ensures
        r is Ok <==> (semver_parses(version@) && semver_req_parses(compatible@) && semver_req_matches(
            compatible@,
            version@,
        )),
        r matches Err(e) ==> e is IncompatibleProtocolVersion,
{
    match semver_req_match(compatible, version) {
        Some(true) => Ok(()),
        _ => Err(LoginFailureReason::IncompatibleProtocolVersion),
    }
}

/// `i` is the first index in `ps` of a position with the identifier `id`.
pub open spec fn first_index_with_id(ps: Seq<PositionView>, id: Seq<char>, i: int) -> bool {
    &&& 0 <= i < ps.len()
    &&& ps[i].id == id
    &&& forall|j: int| 0 <= j < i ==> ps[j].id != id
}

/// The first position in `ps` with the identifier `id`, if any.
pub open spec fn first_with_id(ps: Seq<PositionView>, id: Seq<char>) -> Option<PositionView> {
    if exists|i: int| first_index_with_id(ps, id, i) {
        Some(ps[choose|i: int| first_index_with_id(ps, id, i)])
    } else {
        None
    }
}

/// Where a login lands, given the positions that the controller matches.
pub enum LoginChoice {
    /// At this position, or at none where the controller matches none.
    At(Option<PositionView>),
    /// Several positions match and the client selected none of them.
    Ambiguous,
    /// Several positions match and the client's selection is not among them.
    Invalid,
}

/// The position that a login lands at: none where no position matches, the
/// one where one does; where several do, the client's selection decides.
pub open spec fn login_choice(ps: Seq<PositionView>, selected: Option<Seq<char>>) -> LoginChoice {
    if ps.len() == 0 {
        LoginChoice::At(None)
    } else if ps.len() == 1 {
        LoginChoice::At(Some(ps[0]))
    } else {
        match selected {
            None => LoginChoice::Ambiguous,
            Some(t) => match first_with_id(ps, t) {
                Some(p) => LoginChoice::At(Some(p)),
                None => LoginChoice::Invalid,
            },
        }
    }
}

/// A login lands only at a position that the controller matches, and,
/// among several, only at the one the client selected.
pub proof fn lemma_login_lands_at_match(ps: Seq<PositionView>, selected: Option<Seq<char>>)
    ensures
        login_choice(ps, selected) matches LoginChoice::At(Some(p)) ==> ps.contains(p),
        login_choice(ps, selected) matches LoginChoice::At(Some(p)) ==> (ps.len() > 1
            ==> selected == Some(p.id)),
        login_choice(ps, selected) matches LoginChoice::At(None) ==> ps.len() == 0,
{
    if ps.len() == 1 {
        assert(ps.contains(ps[0]));
    }
    if ps.len() > 1 {
        if let Some(t) = selected {
            if exists|i: int| first_index_with_id(ps, t, i) {
                let i = choose|i: int| first_index_with_id(ps, t, i);
                assert(ps.contains(ps[i]));
            }
        }
    }
}

/// The profile a client starts with: a custom one where it asked for that,
/// else the profile of its position where the position names one.
pub open spec fn login_profile(custom: bool, position: Option<PositionView>) -> ActiveProfileView {
    if custom {
        ActiveProfileView::Custom
    } else {
        match position {
            Some(p) => match p.profile_id {
                Some(id) => ActiveProfileView::Specific(id),
                None => ActiveProfileView::Inactive,
            },
            None => ActiveProfileView::Inactive,
        }
    }
}

/// What the server tells of a client `cid` logged in as the controller `x` at
/// `position`.
pub open spec fn login_info(cid: Seq<char>, x: ControllerInfo, position: Option<PositionView>) -> ClientInfoView {
    ClientInfoView {
        id: cid,
        position_id: match position {
            Some(p) => Some(p.id),
            None => None,
        },
        display_name: x.callsign@,
        frequency: x.frequency@,
    }
}

/// The identifiers of a list of positions.
pub open spec fn position_id_views(v: Seq<PositionId>) -> Seq<Seq<char>> {
    v.map_values(|p: PositionId| p@)
}

/// The first position in `ps` with the identifier `id`, found by a scan.
fn find_with_id<'a>(ps: &Vec<&'a Position>, id: &PositionId) -> (r: Option<&'a Position>)
    ensures
        match first_with_id(ps@.map_values(|p: &Position| p@), id@) {
            Some(p) => r matches Some(q) && q@ == p,
            None => r is None,
        },
{
    let ghost vs = ps@.map_values(|p: &Position| p@);
    let mut i: usize = 0;
    while i < ps.len()
        invariant
            i <= ps@.len(),
            vs == ps@.map_values(|p: &Position| p@),
            forall|j: int| 0 <= j < i ==> vs[j].id != id@,
        decreases ps@.len() - i,
    {
        if ps[i].id == *id {
            proof {
                assert(first_index_with_id(vs, id@, i as int));
                let k = choose|k: int| first_index_with_id(vs, id@, k);
                assert(first_index_with_id(vs, id@, k));
                if k < i {
                    assert(vs[k].id != id@);
                } else if k > i {
                    assert(vs[i as int].id != id@);
                }
            }
            return Some(ps[i]);
        }
        i = i + 1;
    }
    proof {
        if exists|k: int| first_index_with_id(vs, id@, k) {
            let k = choose|k: int| first_index_with_id(vs, id@, k);
            assert(vs[k].id != id@);
        }
    }
    None
}

/// The identifiers of the positions `ps`, in order.
fn ids_of(ps: &Vec<&Position>) -> (r: Vec<PositionId>)
    ensures
        position_id_views(r@) == position_ids_of(ps@.map_values(|p: &Position| p@)),
{
    let mut r: Vec<PositionId> = Vec::new();
    let mut i: usize = 0;
    while i < ps.len()
        invariant
            i <= ps@.len(),
            r@.len() == i,
            forall|j: int| 0 <= j < i ==> #[trigger] r@[j]@ == ps@[j]@.id,
        decreases ps@.len() - i,
    {
        r.push(ps[i].id.clone());
        i = i + 1;
    }
    assert(position_id_views(r@) =~= position_ids_of(ps@.map_values(|p: &Position| p@)));
    r
}

/// The profile of a login: custom where asked for, else that of the position.
fn profile_for(custom: bool, position: Option<&Position>) -> (r: ActiveProfile)
    ensures
        r@ == login_profile(
            custom,
            match position {
                Some(p) => Some(p@),
                None => None,
            },
        ),
{
    if custom {
        return ActiveProfile::Custom;
    }
    match position {
        Some(p) => match &p.profile_id {
            Some(id) => ActiveProfile::Specific(id.clone()),
            None => ActiveProfile::Inactive,
        },
        None => ActiveProfile::Inactive,
    }
}

/// The key under which the store keeps the client of the websocket token
/// `token`.
pub fn ws_token_key(token: &str) -> (r: String)
    ensures
        r@ == "ws.token."@ + token@,
{
    string_concat("ws.token.".to_owned(), token)
}

/// The client that logs in where no VATSIM connection is asked for: known by
/// its identifier alone, at no position, without frequency or profile.
pub fn login_without_vatsim(cid: ClientId) -> (r: (ClientInfo, ActiveProfile))
    ensures
        r.0@ == (ClientInfoView {
            id: cid@,
            position_id: None,
            display_name: cid@,
            frequency: Seq::empty(),
        }),
        r.1@ == ActiveProfileView::Inactive,
{
    let name = cid.to_string();
    let info = ClientInfo { id: cid, position_id: None, display_name: name, frequency: String::new() };
    (info, ActiveProfile::Inactive)
}

impl ClientManager {
    /// Decides the login of the client `cid`, whose VATSIM connection is
    /// `controller`, that selected the position `selected` and asked for a
    /// custom profile or not. Without an active VATSIM connection (none, or
    /// one of unknown facility type) the login is refused; several matching
    /// positions and no selection make it ambiguous, and a selection among
    /// none of them makes it invalid. Otherwise the client logs in at its
    /// position, under its callsign and frequency.
    pub fn resolve_login(
        &self,
        cid: ClientId,
        controller: Option<ControllerInfo>,
        selected: Option<&PositionId>,
        custom_profile: bool,
    ) -> (r: Result<(ClientInfo, ActiveProfile), LoginFailureReason>)
        ensures
            !is_active(controller) ==> r matches Err(LoginFailureReason::NoActiveVatsimConnection),
            controller matches Some(x) ==> (is_active(controller) ==> match login_choice(
                positions_of(self@.network, x),
                match selected {
                    Some(s) => Some(s@),
                    None => None,
                },
            ) {
                LoginChoice::At(p) => r matches Ok((info, profile)) && info@ == login_info(
                    cid@,
                    x,
                    p,
                ) && profile@ == login_profile(custom_profile, p),
                LoginChoice::Ambiguous => r matches Err(
                    LoginFailureReason::AmbiguousVatsimPosition(ids),
                ) && position_id_views(ids@) == position_ids_of(positions_of(self@.network, x)),
                LoginChoice::Invalid => r matches Err(LoginFailureReason::InvalidVatsimPosition),
            }),
    {
        let x = match controller {
            Some(x) => x,
            None => {
                return Err(LoginFailureReason::NoActiveVatsimConnection);
            },
        };
        if x.facility_type == crate::facility::FacilityType::Unknown {
            return Err(LoginFailureReason::NoActiveVatsimConnection);
        }
        let positions = self.find_positions(&x);
        let ghost ps = positions_of(self@.network, x);
        assert(positions@.map_values(|p: &Position| p@) == ps);
        let position: Option<&Position> = if positions.len() == 0 {
            None
        } else if positions.len() == 1 {
            assert(positions@.map_values(|p: &Position| p@)[0] == positions@[0]@);
            Some(positions[0])
        } else {
            match selected {
                Some(target) => match find_with_id(&positions, target) {
                    Some(p) => Some(p),
                    None => {
                        return Err(LoginFailureReason::InvalidVatsimPosition);
                    },
                },
                None => {
                    return Err(LoginFailureReason::AmbiguousVatsimPosition(ids_of(&positions)));
                },
            }
        };
        let profile = profile_for(custom_profile, position);
        let position_id = match position {
            Some(p) => Some(p.id.clone()),
            None => None,
        };
        let info = ClientInfo {
            id: cid,
            position_id,
            display_name: x.callsign.clone(),
            frequency: x.frequency.clone(),
        };
        Ok((info, profile))
    }
}

} // verus!
