//! What a peer connection is built from: the ICE servers in the shape that
//! the WebRTC stack takes, the media lifecycle of a call, and the check for
//! candidates in the carrier-grade NAT range.
use crate::ice::{texts, IceConfig, IceConfigView, IceServer, IceServerView};
use vstd::prelude::*;

verus! {

/// An ICE server as the WebRTC stack takes it: absent credentials are empty
/// strings.
pub struct RtcIceServer {
    pub urls: Vec<String>,
    pub username: String,
    pub credential: String,
}

/// The mathematical content of an [`RtcIceServer`].
pub struct RtcIceServerView {
    pub urls: Seq<Seq<char>>,
    pub username: Seq<char>,
    pub credential: Seq<char>,
}

impl View for RtcIceServer {
    type V = RtcIceServerView;

    open spec fn view(&self) -> RtcIceServerView {
        RtcIceServerView {
            urls: texts(self.urls@),
            username: self.username@,
            credential: self.credential@,
        }
    }
}

/// The peer connection configuration: the ICE servers, in order.
pub struct RtcConfiguration {
    pub ice_servers: Vec<RtcIceServer>,
}

/// The text of an optional credential, empty where there is none.
pub open spec fn text_or_empty(o: Option<Seq<char>>) -> Seq<char> {
    match o {
        Some(t) => t,
        None => Seq::empty(),
    }
}

/// The WebRTC form of an ICE server.
pub open spec fn rtc_server(s: IceServerView) -> RtcIceServerView {
    RtcIceServerView {
        urls: s.urls,
        username: text_or_empty(s.username),
        credential: text_or_empty(s.credential),
    }
}

/// The WebRTC form of an ICE configuration: each server converted, in
/// order; the expiry is not part of it.
pub open spec fn rtc_servers(c: IceConfigView) -> Seq<RtcIceServerView> {
    c.ice_servers.map_values(|s: IceServerView| rtc_server(s))
}

/// Conversion into the types that the WebRTC stack takes.
pub trait IntoRtc<T> {
    fn into_rtc(self) -> T;
}

/// An optional string, or the empty string.
fn string_or_empty(o: Option<String>) -> (r: String)
    ensures
        r@ == text_or_empty(match o {
            Some(s) => Some(s@),
            None => None,
        }),
{
    match o {
        Some(s) => s,
        None => String::new(),
    }
}

impl IntoRtc<RtcIceServer> for IceServer {
    /// The server with its URLs; absent credentials become empty strings.
    fn into_rtc(self) -> (r: RtcIceServer)
        ensures
            r@ == rtc_server(self@),
    {
        RtcIceServer {
            urls: self.urls,
            username: string_or_empty(self.username),
            credential: string_or_empty(self.credential),
        }
    }
}

impl IntoRtc<RtcConfiguration> for IceConfig {
    /// Every server converted, in order.
    fn into_rtc(self) -> (r: RtcConfiguration)
        ensures
            r.ice_servers@.map_values(|s: RtcIceServer| s@) == rtc_servers(self@),
    {
        let ghost whole = self@;
        let mut rest = self.ice_servers;
        let mut out: Vec<RtcIceServer> = Vec::new();
        let ghost n = rest@.len();
        while rest.len() > 0
            invariant
                whole.ice_servers.len() == n,
                rest@.len() + out@.len() == n,
                forall|j: int|
                    0 <= j < rest@.len() ==> #[trigger] rest@[j]@ == whole.ice_servers[j
                        + out@.len()],
                forall|j: int|
                    0 <= j < out@.len() ==> #[trigger] out@[j]@ == rtc_server(
                        whole.ice_servers[j],
                    ),
            decreases rest@.len(),
        {
            let ghost before = rest@;
            let s = rest.remove(0);
            let ghost k = out@.len();
            assert(s@ == whole.ice_servers[k as int]);
            out.push(s.into_rtc());
            assert forall|j: int| 0 <= j < rest@.len() implies #[trigger] rest@[j]@
                == whole.ice_servers[j + out@.len()] by {
                assert(rest@[j] == before[j + 1]);
            }
        }
        let r = RtcConfiguration { ice_servers: out };
        assert(r.ice_servers@.map_values(|s: RtcIceServer| s@) =~= rtc_servers(whole));
        r
    }
}

/// Whether an IPv4 address, given by its octets, lies in the carrier-grade
/// NAT range 100.64.0.0/10, which VPNs commonly use for their interfaces.
pub open spec fn in_cgnat_range(octets: [u8; 4]) -> bool {
    octets[0] == 100 && 64 <= octets[1] < 128
}

/// Whether the IPv4 address with the octets `octets` lies in the
/// carrier-grade NAT range 100.64.0.0/10.
pub fn is_cgnat_ipv4(octets: [u8; 4]) -> (r: bool)
    ensures
        r == in_cgnat_range(octets),
{
    octets[0] == 100 && 64 <= octets[1] && octets[1] < 128
}

/// Why a peer refused a request.
#[derive(Debug, Clone, Copy, PartialEq, Eq, Structural)]
pub enum WebrtcError {
    /// The peer is already sending: a call is active on it.
    CallActive,
}

/// What starting the media of a peer does with its receiver.
#[derive(Debug, Clone, Copy, PartialEq, Eq, Structural)]
pub enum ReceiverStart {
    /// A receiver is there from before a pause: it resumes.
    Resume,
    /// There is none: one is created.
    Create,
}

/// What pausing a peer does.
#[derive(Debug, Clone, Copy, PartialEq, Eq, Structural)]
pub struct PausePlan {
    /// The sender is shut down.
    pub shutdown_sender: bool,
    /// The receiver is paused: it stays, and keeps draining incoming audio.
    pub pause_receiver: bool,
}

/// What stopping a peer does.
#[derive(Debug, Clone, Copy, PartialEq, Eq, Structural)]
pub struct StopPlan {
    /// The sender is stopped.
    pub stop_sender: bool,
    /// The receiver is shut down.
    pub shutdown_receiver: bool,
}

/// Which media tasks a peer holds: an audio sender and an audio receiver.
#[derive(Debug, Clone, Copy, PartialEq, Eq, Structural)]
pub struct Peer {
    pub has_sender: bool,
    pub has_receiver: bool,
}

/// What starting the media of `m` answers.
pub open spec fn start_outcome(m: Peer) -> Result<ReceiverStart, WebrtcError> {
    if m.has_sender {
        Err(WebrtcError::CallActive)
    } else if m.has_receiver {
        Ok(ReceiverStart::Resume)
    } else {
        Ok(ReceiverStart::Create)
    }
}

/// The media of `m` after a start: unchanged where it is refused, else
/// sending and receiving.
pub open spec fn after_start(m: Peer) -> Peer {
    if m.has_sender {
        m
    } else {
        Peer { has_sender: true, has_receiver: true }
    }
}

/// The media of `m` after a pause: no sender, the receiver as it was.
pub open spec fn after_pause(m: Peer) -> Peer {
    Peer { has_sender: false, ..m }
}

/// The media of `m` after a stop: neither sender nor receiver.
pub open spec fn after_stop(m: Peer) -> Peer {
    Peer { has_sender: false, has_receiver: false }
}

/// Every operation keeps a peer well formed.
pub proof fn lemma_operations_keep_wf(m: Peer)
    requires
        m.wf(),
    ensures
        after_start(m).wf(),
        after_pause(m).wf(),
        after_stop(m).wf(),
{
}

/// A started peer refuses a second start, and keeps its media.
pub proof fn lemma_start_twice_refused(m: Peer)
    ensures
        start_outcome(after_start(m)) == Err::<ReceiverStart, WebrtcError>(
            WebrtcError::CallActive,
        ),
        after_start(after_start(m)) == after_start(m),
{
}

/// Holding a call stops sending but keeps the receiver; starting again
/// resumes that receiver and sends once more.
pub proof fn lemma_pause_then_start_resumes(m: Peer)
    requires
        m.wf(),
    ensures
        !after_pause(after_start(m)).has_sender,
        after_pause(after_start(m)).has_receiver,
        start_outcome(after_pause(after_start(m))) == Ok::<ReceiverStart, WebrtcError>(
            ReceiverStart::Resume,
        ),
        after_start(after_pause(after_start(m))) == after_start(m),
{
}

/// A stopped peer holds no media, and starts afresh with a new receiver.
pub proof fn lemma_stop_clears(m: Peer)
    ensures
        !after_stop(m).has_sender,
        !after_stop(m).has_receiver,
        start_outcome(after_stop(m)) == Ok::<ReceiverStart, WebrtcError>(ReceiverStart::Create),
        after_stop(after_stop(m)) == after_stop(m),
{
}

impl Peer {
    /// A peer sends only while it also receives: a sender is only ever
    /// created together with a receiver, and a receiver outlives its sender.
    pub open spec fn wf(self) -> bool {
        self.has_sender ==> self.has_receiver
    }

    /// A peer without media tasks, as a new connection has.
    pub fn new() -> (r: Self)
        ensures
            !r.has_sender,
            !r.has_receiver,
            r.wf(),
    {
        Peer { has_sender: false, has_receiver: false }
    }

    /// Starts sending and receiving. Refused with `CallActive`, the peer
    /// unchanged, while it is sending; otherwise the receiver resumes where
    /// there is one, or is created, and a sender is created.
    pub fn start(&mut self) -> (r: Result<ReceiverStart, WebrtcError>)
        ensures
            r == start_outcome(*old(self)),
            *final(self) == after_start(*old(self)),
    {
        if self.has_sender {
            return Err(WebrtcError::CallActive);
        }
        let how = if self.has_receiver {
            ReceiverStart::Resume
        } else {
            ReceiverStart::Create
        };
        self.has_receiver = true;
        self.has_sender = true;
        Ok(how)
    }

    /// Holds the call: the sender is shut down, the receiver is paused and
    /// kept.
    pub fn pause(&mut self) -> (r: PausePlan)
        ensures
            r == (PausePlan {
                shutdown_sender: old(self).has_sender,
                pause_receiver: old(self).has_receiver,
            }),
            *final(self) == after_pause(*old(self)),
    {
        let plan = PausePlan {
            shutdown_sender: self.has_sender,
            pause_receiver: self.has_receiver,
        };
        self.has_sender = false;
        plan
    }

    /// Ends the media of the call: the sender is stopped and the receiver is
    /// shut down, where there are such.
    pub fn stop(&mut self) -> (r: StopPlan)
        ensures
            r == (StopPlan {
                stop_sender: old(self).has_sender,
                shutdown_receiver: old(self).has_receiver,
            }),
            *final(self) == after_stop(*old(self)),
    {
        let plan = StopPlan {
            stop_sender: self.has_sender,
            shutdown_receiver: self.has_receiver,
        };
        self.has_sender = false;
        self.has_receiver = false;
        plan
    }
}

} // verus!
