//! Call identifiers, call targets and the call messages that the server
//! sends about ringing and active calls.
pub mod manager;

use crate::ids::{ClientId, PositionId, StationId};
use vstd::prelude::*;

verus! {

/// The value that `uuid::Uuid::try_parse` reads from a text: the UUID as a
/// 128-bit number, or `None` where the text is no UUID.
pub uninterp spec fn uuid_parse(text: Seq<char>) -> Option<u128>;

/// Byte `i` of `v` in big-endian order.
pub open spec fn be_byte(v: u128, i: int) -> u8 {
    ((v >> ((8 * (15 - i)) as u128)) & 0xff) as u8
}

/// Whether `v` is laid out as a version 7 UUID of the RFC 9562 variant: the
/// version field holds 7 and the variant field the bits `10`.
pub open spec fn is_v7(v: u128) -> bool {
    (v >> 76u128) & 0xf == 7 && (v >> 62u128) & 0x3 == 2
}

/// `uuid::Uuid::now_v7`: a fresh version 7 UUID from the clock and random
/// bits, as its 128-bit value. Of the value only its layout as a version 7
/// UUID is stated; the timestamp and random bits rest on the time and on
/// chance.
#[verifier::external_body]
fn uuid_now_v7() -> (r: u128)
    ensures
        is_v7(r),
{
    uuid::Uuid::now_v7().as_u128()
}

/// `uuid::Uuid::try_parse`, read as its 128-bit value: the result is the
/// name [`uuid_parse`] applied to the text.
#[verifier::external_body]
fn uuid_try_parse(text: &str) -> (r: Option<u128>)
    ensures
        r == uuid_parse(text@),
{
    match uuid::Uuid::try_parse(text) {
        Ok(id) => Some(id.as_u128()),
        Err(_) => None,
    }
}

/// `uuid::Uuid::from_u128` followed by `into_bytes`: the source builds the
/// UUID from `v.to_be_bytes()`, so the bytes are those of `v`, most
/// significant first.
#[verifier::external_body]
fn uuid_bytes(v: u128) -> (r: [u8; 16])
    ensures
        forall|i: int| 0 <= i < 16 ==> #[trigger] r@[i] == be_byte(v, i),
{
    uuid::Uuid::from_u128(v).into_bytes()
}

/// The lower-case hexadecimal digit for `n`, below 16.
pub open spec fn hex_digit(n: int) -> char {
    if n < 10 {
        (48 + n) as char
    } else {
        (87 + n) as char
    }
}

/// Hexadecimal digit `k` of `v`, counted from the most significant.
pub open spec fn nibble(v: u128, k: int) -> int {
    ((v >> ((4 * (31 - k)) as u128)) & 0xf) as int
}

/// The text of `v` as a hyphenated UUID: its 32 lower-case hexadecimal
/// digits, most significant first, in groups of 8, 4, 4, 4 and 12 joined by
/// `-`.
pub open spec fn hyphenated_text(v: u128) -> Seq<char> {
    Seq::new(
        36,
        |j: int|
            if j == 8 || j == 13 || j == 18 || j == 23 {
                '-'
            } else {
                hex_digit(
                    nibble(
                        v,
                        j - (if j < 8 {
                            0int
                        } else if j < 13 {
                            1int
                        } else if j < 18 {
                            2int
                        } else if j < 23 {
                            3int
                        } else {
                            4int
                        }),
                    ),
                )
            },
    )
}

/// `uuid::Uuid::from_u128(v).hyphenated().to_string()`: the crate writes the
/// big-endian bytes of `v` as lower-case hexadecimal digit pairs and puts a
/// `-` after the 8th, 12th, 16th and 20th digit.
#[verifier::external_body]
fn uuid_hyphenated(v: u128) -> (r: String)
    ensures
        r@ == hyphenated_text(v),
{
    uuid::Uuid::from_u128(v).hyphenated().to_string()
}

/// Identifier of a call: a UUID, held as its 128-bit value.
#[derive(Debug, Clone, Copy, PartialEq, Eq, Structural, Hash, PartialOrd, Ord, Default)]
pub struct CallId {
    value: u128,
}

impl CallId {
    /// The 128-bit value of the identifier.
    pub closed spec fn value(self) -> u128 {
        self.value
    }

    /// A fresh, time-ordered (version 7) identifier.
    pub fn new() -> (r: Self)
        ensures
            is_v7(r.value()),
    {
        CallId { value: uuid_now_v7() }
    }

    /// The identifier as text, as a hyphenated UUID.
    pub fn to_string(&self) -> (r: String)
        ensures
            r@ == hyphenated_text(self.value()),
    {
        uuid_hyphenated(self.value)
    }

    /// The identifier with the 128-bit value `value`.
    pub fn from_u128(value: u128) -> (r: Self)
        ensures
            r.value() == value,
    {
        CallId { value }
    }

    /// The 128-bit value of the identifier.
    pub fn as_u128(&self) -> (r: u128)
        ensures
            r == self.value(),
    {
        self.value
    }

    /// The 16 bytes of the UUID, most significant first.
    pub fn as_bytes(&self) -> (r: [u8; 16])
        ensures
            forall|i: int| 0 <= i < 16 ==> #[trigger] r@[i] == be_byte(self.value(), i),
    {
        uuid_bytes(self.value)
    }

    /// Reads an identifier from its text form; `None` where the text is no UUID.
    pub fn parse(text: &str) -> (r: Option<Self>)
        ensures
            match uuid_parse(text@) {
                Some(v) => r == Some(CallId::from_value(v)),
                None => r is None,
            },
    {
        match uuid_try_parse(text) {
            Some(v) => Some(CallId { value: v }),
            None => None,
        }
    }

    /// The identifier with the value `v`, in specifications.
    pub closed spec fn from_value(v: u128) -> CallId {
        CallId { value: v }
    }

    /// Identifiers are equal exactly when their values are.
    pub proof fn lemma_value_injective(a: CallId, b: CallId)
        ensures
            (a.value() == b.value()) <==> (a == b),
            CallId::from_value(a.value()) == a,
            CallId::from_value(b.value()).value() == b.value(),
    {
    }
}

/// Who is being called: a client directly, a position, or a station.
#[derive(Debug)]
pub enum CallTarget {
    Client(ClientId),
    Position(PositionId),
    Station(StationId),
}

/// The mathematical content of a [`CallTarget`].
pub enum CallTargetView {
    Client(Seq<char>),
    Position(Seq<char>),
    Station(Seq<char>),
}

impl View for CallTarget {
    type V = CallTargetView;

    open spec fn view(&self) -> CallTargetView {
        match self {
            CallTarget::Client(id) => CallTargetView::Client(id@),
            CallTarget::Position(id) => CallTargetView::Position(id@),
            CallTarget::Station(id) => CallTargetView::Station(id@),
        }
    }
}

impl Clone for CallTarget {
    fn clone(&self) -> (r: Self)
        ensures
            r@ == self@,
    {
        match self {
            CallTarget::Client(id) => CallTarget::Client(id.clone()),
            CallTarget::Position(id) => CallTarget::Position(id.clone()),
            CallTarget::Station(id) => CallTarget::Station(id.clone()),
        }
    }
}

impl PartialEq for CallTarget {
    fn eq(&self, other: &Self) -> (r: bool) {
        match (self, other) {
            (CallTarget::Client(a), CallTarget::Client(b)) => *a == *b,
            (CallTarget::Position(a), CallTarget::Position(b)) => *a == *b,
            (CallTarget::Station(a), CallTarget::Station(b)) => *a == *b,
            _ => false,
        }
    }
}

impl Eq for CallTarget {}

impl vstd::std_specs::cmp::PartialEqSpecImpl for CallTarget {
    open spec fn obeys_eq_spec() -> bool {
        true
    }

    open spec fn eq_spec(&self, other: &Self) -> bool {
        self@ == other@
    }
}

impl From<ClientId> for CallTarget {
    fn from(id: ClientId) -> (r: Self) {
        CallTarget::Client(id)
    }
}

impl vstd::std_specs::convert::FromSpecImpl<ClientId> for CallTarget {
    open spec fn obeys_from_spec() -> bool {
        true
    }

    open spec fn from_spec(id: ClientId) -> CallTarget {
        CallTarget::Client(id)
    }
}

impl From<PositionId> for CallTarget {
    fn from(id: PositionId) -> (r: Self) {
        CallTarget::Position(id)
    }
}

impl vstd::std_specs::convert::FromSpecImpl<PositionId> for CallTarget {
    open spec fn obeys_from_spec() -> bool {
        true
    }

    open spec fn from_spec(id: PositionId) -> CallTarget {
        CallTarget::Position(id)
    }
}

impl From<StationId> for CallTarget {
    fn from(id: StationId) -> (r: Self) {
        CallTarget::Station(id)
    }
}

impl vstd::std_specs::convert::FromSpecImpl<StationId> for CallTarget {
    open spec fn obeys_from_spec() -> bool {
        true
    }

    open spec fn from_spec(id: StationId) -> CallTarget {
        CallTarget::Station(id)
    }
}

/// Where a call comes from: the calling client, and the position and station
/// it called from where there are any.
#[derive(Debug)]
pub struct CallSource {
    pub client_id: ClientId,
    pub position_id: Option<PositionId>,
    pub station_id: Option<StationId>,
}

impl From<ClientId> for CallSource {
    fn from(client_id: ClientId) -> (r: Self) {
        CallSource { client_id, position_id: None, station_id: None }
    }
}

impl vstd::std_specs::convert::FromSpecImpl<ClientId> for CallSource {
    open spec fn obeys_from_spec() -> bool {
        true
    }

    open spec fn from_spec(client_id: ClientId) -> CallSource {
        CallSource { client_id, position_id: None, station_id: None }
    }
}

impl CallSource {
    /// A source with the client alone.
    pub fn new(client_id: ClientId) -> (r: Self)
        ensures
            r.client_id@ == client_id@,
            r.position_id is None,
            r.station_id is None,
    {
        CallSource { client_id, position_id: None, station_id: None }
    }

    /// The source, calling from `position_id`.
    pub fn with_position(self, position_id: PositionId) -> (r: Self)
        ensures
            r.client_id@ == self.client_id@,
            r.position_id matches Some(p) && p@ == position_id@,
            r.station_id == self.station_id,
    {
        CallSource { position_id: Some(position_id), ..self }
    }

    /// The source, calling from `station_id`.
    pub fn with_station(self, station_id: StationId) -> (r: Self)
        ensures
            r.client_id@ == self.client_id@,
            r.position_id == self.position_id,
            r.station_id matches Some(s) && s@ == station_id@,
    {
        CallSource { station_id: Some(station_id), ..self }
    }
}

/// Why a call failed.
#[derive(Debug, Clone, Copy, PartialEq, Eq, Structural)]
pub enum CallErrorReason {
    TargetNotFound,
    CallActive,
    WebrtcFailure,
    AudioFailure,
    CallFailure,
    SignalingFailure,
    AutoHangup,
    Other,
}

/// Why a ringing call was cancelled.
#[derive(Debug)]
pub enum CallCancelReason {
    /// Another client answered it.
    AnsweredElsewhere(ClientId),
    /// The caller hung up before anyone answered.
    CallerCancelled,
    /// A client that the call depended on disconnected.
    Disconnected,
    /// Every notified client rejected the call or failed.
    AllFailed,
}

/// The mathematical content of a [`CallCancelReason`].
pub enum CallCancelReasonView {
    AnsweredElsewhere(Seq<char>),
    CallerCancelled,
    Disconnected,
    AllFailed,
}

impl View for CallCancelReason {
    type V = CallCancelReasonView;

    open spec fn view(&self) -> CallCancelReasonView {
        match self {
            CallCancelReason::AnsweredElsewhere(id) => CallCancelReasonView::AnsweredElsewhere(
                id@,
            ),
            CallCancelReason::CallerCancelled => CallCancelReasonView::CallerCancelled,
            CallCancelReason::Disconnected => CallCancelReasonView::Disconnected,
            CallCancelReason::AllFailed => CallCancelReasonView::AllFailed,
        }
    }
}

/// Tells the clients that a ringing call was cancelled.
#[derive(Debug)]
pub struct CallCancelled {
    pub call_id: CallId,
    pub reason: CallCancelReason,
}

impl CallCancelled {
    /// The message for `call_id`, cancelled for `reason`.
    pub fn new(call_id: CallId, reason: CallCancelReason) -> (r: Self)
        ensures
            r.call_id == call_id,
            r.reason@ == reason@,
    {
        CallCancelled { call_id, reason }
    }
}

/// Tells a client that a call ended, and who ended it.
#[derive(Debug)]
pub struct CallEnd {
    pub call_id: CallId,
    pub ending_client_id: ClientId,
}

impl CallEnd {
    /// The message for `call_id`, ended by `ending_client_id`.
    pub fn new(call_id: CallId, ending_client_id: ClientId) -> (r: Self)
        ensures
            r.call_id == call_id,
            r.ending_client_id@ == ending_client_id@,
    {
        CallEnd { call_id, ending_client_id }
    }
}

} // verus!
