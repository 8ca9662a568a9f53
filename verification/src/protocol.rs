//! Messages and values that clients and the server exchange.
use crate::clients::DisconnectReason;
use crate::ids::{ClientId, PositionId, StationId};
use crate::metrics::LoginFailureReason;
use crate::text::ascii_upper;
use vstd::prelude::*;

verus! {

/// A change in a station's status.
#[derive(Debug)]
pub enum StationChange {
    /// The station came online, covered by `position_id`.
    Online { station_id: StationId, position_id: PositionId },
    /// Coverage of the station passed from one position to another.
    Handoff { station_id: StationId, from_position_id: PositionId, to_position_id: PositionId },
    /// The station went offline.
    Offline { station_id: StationId },
}

/// The mathematical content of a [`StationChange`].
pub enum StationChangeView {
    Online { station_id: Seq<char>, position_id: Seq<char> },
    Handoff { station_id: Seq<char>, from_position_id: Seq<char>, to_position_id: Seq<char> },
    Offline { station_id: Seq<char> },
}

impl StationChangeView {
    /// The station that the change is about.
    pub open spec fn station(self) -> Seq<char> {
        match self {
            StationChangeView::Online { station_id, .. } => station_id,
            StationChangeView::Handoff { station_id, .. } => station_id,
            StationChangeView::Offline { station_id } => station_id,
        }
    }
}

impl View for StationChange {
    type V = StationChangeView;

    open spec fn view(&self) -> StationChangeView {
        match self {
            StationChange::Online { station_id, position_id } => StationChangeView::Online {
                station_id: station_id@,
                position_id: position_id@,
            },
            StationChange::Handoff { station_id, from_position_id, to_position_id } =>
                StationChangeView::Handoff {
                station_id: station_id@,
                from_position_id: from_position_id@,
                to_position_id: to_position_id@,
            },
            StationChange::Offline { station_id } => StationChangeView::Offline {
                station_id: station_id@,
            },
        }
    }
}

impl PartialEq for StationChange {
    fn eq(&self, other: &Self) -> (r: bool) {
        match (self, other) {
            (
                StationChange::Online { station_id: a, position_id: b },
                StationChange::Online { station_id: c, position_id: d },
            ) => *a == *c && *b == *d,
            (
                StationChange::Handoff { station_id: a, from_position_id: b, to_position_id: e },
                StationChange::Handoff { station_id: c, from_position_id: d, to_position_id: f },
            ) => *a == *c && *b == *d && *e == *f,
            (StationChange::Offline { station_id: a }, StationChange::Offline { station_id: c }) =>
                *a == *c,
            _ => false,
        }
    }
}

impl Eq for StationChange {}

impl Clone for StationChange {
    fn clone(&self) -> (r: Self)
        ensures
            r@ == self@,
    {
        match self {
            StationChange::Online { station_id, position_id } => StationChange::Online {
                station_id: station_id.clone(),
                position_id: position_id.clone(),
            },
            StationChange::Handoff { station_id, from_position_id, to_position_id } =>
                StationChange::Handoff {
                station_id: station_id.clone(),
                from_position_id: from_position_id.clone(),
                to_position_id: to_position_id.clone(),
            },
            StationChange::Offline { station_id } => StationChange::Offline {
                station_id: station_id.clone(),
            },
        }
    }
}

impl vstd::std_specs::cmp::PartialEqSpecImpl for StationChange {
    open spec fn obeys_eq_spec() -> bool {
        true
    }

    open spec fn eq_spec(&self, other: &Self) -> bool {
        self@ == other@
    }
}

/// The change of `station` whose covering position goes from `from` to
/// `to`, identifiers upper-cased: online where there was none, offline where
/// there is none after, a handoff otherwise.
pub open spec fn transition(station: Seq<char>, from: Option<Seq<char>>, to: Option<Seq<char>>) -> StationChangeView {
    match (from, to) {
        (None, Some(t)) => StationChangeView::Online {
            station_id: ascii_upper(station),
            position_id: ascii_upper(t),
        },
        (Some(f), Some(t)) => StationChangeView::Handoff {
            station_id: ascii_upper(station),
            from_position_id: ascii_upper(f),
            to_position_id: ascii_upper(t),
        },
        _ => StationChangeView::Offline { station_id: ascii_upper(station) },
    }
}

impl StationChange {
    /// The change of the station `change.0` whose covering position goes
    /// from `change.1` to `change.2`; at least one of them is a position.
    pub fn from(change: (&str, Option<&str>, Option<&str>)) -> (r: StationChange)
        requires
            change.1 is Some || change.2 is Some,
        ensures
            r@ == transition(
                change.0@,
                match change.1 {
                    Some(f) => Some(f@),
                    None => None,
                },
                match change.2 {
                    Some(t) => Some(t@),
                    None => None,
                },
            ),
    {
        let (station, from, to) = change;
        match (from, to) {
            (None, Some(t)) => StationChange::Online {
                station_id: StationId::from(station),
                position_id: PositionId::from(t),
            },
            (Some(f), Some(t)) => StationChange::Handoff {
                station_id: StationId::from(station),
                from_position_id: PositionId::from(f),
                to_position_id: PositionId::from(t),
            },
            _ => StationChange::Offline { station_id: StationId::from(station) },
        }
    }
}

/// The views of a list of station changes.
pub open spec fn changes_view(v: Seq<StationChange>) -> Seq<StationChangeView> {
    v.map_values(|c: StationChange| c@)
}

/// Whether a position connected or disconnected.
#[derive(Debug, Clone, Copy, PartialEq, Eq, Structural)]
pub enum PositionChange {
    Disconnected,
    Connected,
}

/// The body of an error answer over HTTP.
#[derive(Debug)]
pub struct ErrorResponse {
    pub message: String,
}

/// A client's request to log in.
#[derive(Debug)]
pub struct Login {
    /// The token that the client obtained for the websocket.
    pub token: String,
    /// The protocol version that the client speaks.
    pub protocol_version: String,
    /// Whether the client brings a profile of its own.
    pub custom_profile: bool,
    /// The position the client asks for, where its controller matches several.
    pub position_id: Option<PositionId>,
}

/// Why a client refused a call.
#[derive(Debug, Clone, Copy, PartialEq, Eq, Structural)]
pub enum CallRejectReason {
    Busy,
}

/// Why the server ended a client's session.
#[derive(Debug)]
pub enum TerminationReason {
    NoActiveVatsimConnection,
    AmbiguousVatsimPosition(Vec<PositionId>),
}

/// Tells a client that its login was refused, and why.
#[derive(Debug)]
pub struct LoginFailure {
    pub reason: LoginFailureReason,
}

impl From<LoginFailureReason> for LoginFailure {
    fn from(reason: LoginFailureReason) -> (r: Self) {
        LoginFailure { reason }
    }
}

impl vstd::std_specs::convert::FromSpecImpl<LoginFailureReason> for LoginFailure {
    open spec fn obeys_from_spec() -> bool {
        true
    }

    open spec fn from_spec(reason: LoginFailureReason) -> LoginFailure {
        LoginFailure { reason }
    }
}

/// Tells a client that the server ended its session, and why.
#[derive(Debug)]
pub struct Terminated {
    pub reason: TerminationReason,
}

impl From<TerminationReason> for Terminated {
    fn from(reason: TerminationReason) -> (r: Self) {
        Terminated { reason }
    }
}

impl vstd::std_specs::convert::FromSpecImpl<TerminationReason> for Terminated {
    open spec fn obeys_from_spec() -> bool {
        true
    }

    open spec fn from_spec(reason: TerminationReason) -> Terminated {
        Terminated { reason }
    }
}

/// What a client is told when the server disconnects it for `reason`: the
/// reasons the server decided on become a termination notice; a session that
/// simply ended gets none.
pub fn termination_reason(reason: DisconnectReason) -> (r: Option<TerminationReason>)
    ensures
        match reason {
            DisconnectReason::Terminated => r is None,
            DisconnectReason::NoActiveVatsimConnection => r matches Some(
                TerminationReason::NoActiveVatsimConnection,
            ),
            DisconnectReason::AmbiguousVatsimPosition(ids) => r matches Some(
                TerminationReason::AmbiguousVatsimPosition(t),
            ) && t@ == ids@,
        },
{
    match reason {
        DisconnectReason::Terminated => None,
        DisconnectReason::NoActiveVatsimConnection => Some(TerminationReason::NoActiveVatsimConnection),
        DisconnectReason::AmbiguousVatsimPosition(ids) => Some(TerminationReason::AmbiguousVatsimPosition(ids)),
    }
}

} // verus!
