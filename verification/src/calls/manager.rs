//! Bookkeeping of ringing and active calls.
//!
//! The manager keeps four tables: the ringing calls and the active calls by
//! call identifier, the incoming ringing calls of each client, and the one
//! outgoing ringing call of each caller. Each table is a list of entries with
//! distinct keys; its view is the map from key to value.
use crate::calls::{
    CallCancelReason,
    CallCancelReasonView,
    CallCancelled,
    CallEnd,
    CallId,
    CallTarget,
    CallTargetView,
};
use crate::ids::ClientId;
use crate::keyed::{
    keys_unique,
    lemma_to_map_dom,
    lemma_to_map_index,
    lemma_to_map_push,
    lemma_to_map_remove,
    to_map,
};
use crate::metrics::CallAttemptOutcome;
use crate::sets::{
    call_set,
    client_set,
    clients_distinct,
    contains_client,
    distinct_clients,
    insert_call,
    insert_client,
    lemma_client_set_len,
    remove_call,
    remove_client,
};
use vstd::prelude::*;

verus! {

/// A ringing call as the callers of the manager see it.
#[derive(Debug)]
pub struct RingingCall {
    pub call_id: CallId,
    pub caller_id: ClientId,
    pub target: CallTarget,
    /// The clients that were told of the call, each once.
    pub notified_clients: Vec<ClientId>,
}

/// The mathematical content of a [`RingingCall`].
pub struct RingingCallView {
    pub call_id: CallId,
    pub caller: Seq<char>,
    pub target: CallTargetView,
    pub notified: Set<Seq<char>>,
}

impl View for RingingCall {
    type V = RingingCallView;

    open spec fn view(&self) -> RingingCallView {
        RingingCallView {
            call_id: self.call_id,
            caller: self.caller_id@,
            target: self.target@,
            notified: client_set(self.notified_clients@),
        }
    }
}

/// An active call between a caller and the client that accepted it.
#[derive(Debug)]
pub struct ActiveCall {
    pub call_id: CallId,
    pub caller_id: ClientId,
    pub callee_id: ClientId,
}

/// The mathematical content of an [`ActiveCall`].
pub struct ActiveCallView {
    pub call_id: CallId,
    pub caller: Seq<char>,
    pub callee: Seq<char>,
}

impl View for ActiveCall {
    type V = ActiveCallView;

    open spec fn view(&self) -> ActiveCallView {
        ActiveCallView {
            call_id: self.call_id,
            caller: self.caller_id@,
            callee: self.callee_id@,
        }
    }
}

/// The client takes part in the active call.
pub open spec fn active_involves(a: ActiveCallView, c: Seq<char>) -> bool {
    a.caller == c || a.callee == c
}

/// The other party of the active call, seen from `c`.
pub open spec fn active_peer(a: ActiveCallView, c: Seq<char>) -> Option<Seq<char>> {
    if a.caller == c {
        Some(a.callee)
    } else if a.callee == c {
        Some(a.caller)
    } else {
        None
    }
}

impl ActiveCall {
    /// The other party of the call, seen from `client_id`; `None` where the
    /// client takes no part in it.
    pub fn peer(&self, client_id: &ClientId) -> (r: Option<&ClientId>)
        ensures
            match active_peer(self@, client_id@) {
                Some(p) => r matches Some(q) && q@ == p,
                None => r is None,
            },
    {
        if self.caller_id == *client_id {
            Some(&self.callee_id)
        } else if self.callee_id == *client_id {
            Some(&self.caller_id)
        } else {
            None
        }
    }

    /// Whether `client_id` takes part in the call.
    pub fn involves(&self, client_id: &ClientId) -> (r: bool)
        ensures
            r == active_involves(self@, client_id@),
    {
        self.caller_id == *client_id || self.callee_id == *client_id
    }
}

/// The full state of a ringing call: besides what [`RingingCallView`] holds,
/// the notified clients that rejected it and those for which it failed.
pub struct RingingState {
    pub call_id: CallId,
    pub caller: Seq<char>,
    pub target: CallTargetView,
    pub notified: Set<Seq<char>>,
    pub rejected: Set<Seq<char>>,
    pub errored: Set<Seq<char>>,
}

/// The ringing call as its callers see it.
pub open spec fn ringing_public(r: RingingState) -> RingingCallView {
    RingingCallView { call_id: r.call_id, caller: r.caller, target: r.target, notified: r.notified }
}

/// The client placed the ringing call or was told of it.
pub open spec fn ringing_involves(r: RingingState, c: Seq<char>) -> bool {
    r.caller == c || r.notified.contains(c)
}

/// As many rejections and failures were recorded as clients were notified.
pub open spec fn all_failed(r: RingingState) -> bool {
    r.rejected.len() + r.errored.len() >= r.notified.len()
}

/// The ringing call with `c` rejecting it.
pub open spec fn with_rejected(r: RingingState, c: Seq<char>) -> RingingState {
    RingingState { rejected: r.rejected.insert(c), ..r }
}

/// The ringing call with `c` failing on it.
pub open spec fn with_errored(r: RingingState, c: Seq<char>) -> RingingState {
    RingingState { errored: r.errored.insert(c), ..r }
}

/// The ringing call with `c` no longer among its notified, rejecting or
/// failing clients.
pub open spec fn without_client(r: RingingState, c: Seq<char>) -> RingingState {
    RingingState {
        notified: r.notified.remove(c),
        rejected: r.rejected.remove(c),
        errored: r.errored.remove(c),
        ..r
    }
}

/// Why a call attempt could not start.
#[derive(Debug, Clone, Copy, PartialEq, Eq, Structural)]
pub enum StartCallError {
    /// The caller has an outgoing call ringing already.
    CallerBusy,
}

/// What became of a ringing call when a notified client rejected it or
/// failed on it.
#[derive(Debug)]
pub enum CallTerminationOutcome {
    /// No such call is ringing.
    CallNotFound,
    /// The client was not told of the call.
    ClientNotNotified,
    /// Other notified clients may still answer.
    Continued,
    /// Every notified client rejected the call or failed: it is over.
    Failed(RingingCall),
}

/// The mathematical content of a [`CallTerminationOutcome`].
pub enum TerminationView {
    CallNotFound,
    ClientNotNotified,
    Continued,
    Failed(RingingCallView),
}

impl View for CallTerminationOutcome {
    type V = TerminationView;

    open spec fn view(&self) -> TerminationView {
        match self {
            CallTerminationOutcome::CallNotFound => TerminationView::CallNotFound,
            CallTerminationOutcome::ClientNotNotified => TerminationView::ClientNotNotified,
            CallTerminationOutcome::Continued => TerminationView::Continued,
            CallTerminationOutcome::Failed(r) => TerminationView::Failed(r@),
        }
    }
}

/// A message that a cleanup asks to be sent, and its addressee.
#[derive(Debug)]
pub enum CallNotice {
    Cancelled { to: ClientId, cancelled: CallCancelled },
    Ended { to: ClientId, ended: CallEnd },
}

/// The mathematical content of a [`CallNotice`].
pub enum CallNoticeView {
    Cancelled { to: Seq<char>, call_id: CallId, reason: CallCancelReasonView },
    Ended { to: Seq<char>, call_id: CallId, ending_client: Seq<char> },
}

impl View for CallNotice {
    type V = CallNoticeView;

    open spec fn view(&self) -> CallNoticeView {
        match self {
            CallNotice::Cancelled { to, cancelled } => CallNoticeView::Cancelled {
                to: to@,
                call_id: cancelled.call_id,
                reason: cancelled.reason@,
            },
            CallNotice::Ended { to, ended } => CallNoticeView::Ended {
                to: to@,
                call_id: ended.call_id,
                ending_client: ended.ending_client_id@,
            },
        }
    }
}

/// `n` is one of the notices of the aborted ringing call `r` when `c` leaves:
/// where `c` placed the call, each notified client hears that the caller
/// cancelled; otherwise the caller hears that a client disconnected.
pub open spec fn ringing_notice(r: RingingState, c: Seq<char>, n: CallNoticeView) -> bool {
    match n {
        CallNoticeView::Cancelled { to, call_id, reason } => call_id == r.call_id && if r.caller
            == c {
            reason == CallCancelReasonView::CallerCancelled && r.notified.contains(to)
        } else {
            reason == CallCancelReasonView::Disconnected && to == r.caller
        },
        _ => false,
    }
}

/// `n` is the notice of the active call `a` ending when `c` leaves: the other
/// party hears that the call ended, with itself as the ending client.
pub open spec fn active_notice(a: ActiveCallView, c: Seq<char>, n: CallNoticeView) -> bool {
    match n {
        CallNoticeView::Ended { to, call_id, ending_client } => call_id == a.call_id
            && active_peer(a, c) == Some(to) && ending_client == to,
        _ => false,
    }
}

/// `n` is one of the notices that the cleanup of the calls of `c` sends.
pub open spec fn cleanup_notice(v: CallManagerView, c: Seq<char>, n: CallNoticeView) -> bool {
    match n {
        CallNoticeView::Cancelled { call_id, .. } => aborted_calls(v, c).dom().contains(call_id)
            && ringing_notice(aborted_calls(v, c)[call_id], c, n),
        CallNoticeView::Ended { call_id, .. } => v.active.dom().contains(call_id)
            && active_involves(v.active[call_id], c) && active_notice(v.active[call_id], c, n),
    }
}

/// A ringing call as the manager keeps it.
#[derive(Debug)]
struct RingingCallEntry {
    call_id: CallId,
    caller_id: ClientId,
    target: CallTarget,
    notified_clients: Vec<ClientId>,
    rejected_clients: Vec<ClientId>,
    errored_clients: Vec<ClientId>,
}

impl View for RingingCallEntry {
    type V = RingingState;

    closed spec fn view(&self) -> RingingState {
        RingingState {
            call_id: self.call_id,
            caller: self.caller_id@,
            target: self.target@,
            notified: client_set(self.notified_clients@),
            rejected: client_set(self.rejected_clients@),
            errored: client_set(self.errored_clients@),
        }
    }
}

impl RingingCallEntry {
    /// Each of the three client lists holds every client once.
    spec fn wf(&self) -> bool {
        &&& clients_distinct(self.notified_clients@)
        &&& clients_distinct(self.rejected_clients@)
        &&& clients_distinct(self.errored_clients@)
    }

    fn new(call_id: CallId, caller_id: ClientId, target: CallTarget, notified: Vec<ClientId>) -> (r:
        Self)
        requires
            clients_distinct(notified@),
        ensures
            r.wf(),
            r@ == (RingingState {
                call_id,
                caller: caller_id@,
                target: target@,
                notified: client_set(notified@),
                rejected: Set::empty(),
                errored: Set::empty(),
            }),
    {
        let r = RingingCallEntry {
            call_id,
            caller_id,
            target,
            notified_clients: notified,
            rejected_clients: Vec::new(),
            errored_clients: Vec::new(),
        };
        assert(client_set(r.rejected_clients@) =~= Set::empty());
        assert(client_set(r.errored_clients@) =~= Set::empty());
        r
    }

    fn has_notified_client(&self, client_id: &ClientId) -> (r: bool)
        ensures
            r == self@.notified.contains(client_id@),
    {
        contains_client(&self.notified_clients, client_id)
    }

    fn involves(&self, client_id: &ClientId) -> (r: bool)
        ensures
            r == ringing_involves(self@, client_id@),
    {
        self.caller_id == *client_id || contains_client(&self.notified_clients, client_id)
    }

    fn all_rejected_or_errored(&self) -> (r: bool)
        requires
            self.wf(),
        ensures
            r == all_failed(self@),
    {
        proof {
            lemma_client_set_len(self.notified_clients@);
            lemma_client_set_len(self.rejected_clients@);
            lemma_client_set_len(self.errored_clients@);
        }
        let rejected = self.rejected_clients.len() as u128;
        let errored = self.errored_clients.len() as u128;
        rejected + errored >= self.notified_clients.len() as u128
    }

    /// Records that `client_id` rejected the call, if it was notified;
    /// reports whether every notified client has now rejected or failed.
    fn mark_rejected(&mut self, client_id: &ClientId) -> (r: bool)
        requires
            old(self).wf(),
        ensures
            final(self).wf(),
            old(self)@.notified.contains(client_id@) ==> final(self)@ == with_rejected(
                old(self)@,
                client_id@,
            ) && r == all_failed(final(self)@),
            !old(self)@.notified.contains(client_id@) ==> final(self)@ == old(self)@ && !r,
    {
        if !self.has_notified_client(client_id) {
            return false;
        }
        insert_client(&mut self.rejected_clients, client_id);
        self.all_rejected_or_errored()
    }

    /// Records that the call failed for `client_id`, if it was notified;
    /// reports whether every notified client has now rejected or failed.
    fn mark_errored(&mut self, client_id: &ClientId) -> (r: bool)
        requires
            old(self).wf(),
        ensures
            final(self).wf(),
            old(self)@.notified.contains(client_id@) ==> final(self)@ == with_errored(
                old(self)@,
                client_id@,
            ) && r == all_failed(final(self)@),
            !old(self)@.notified.contains(client_id@) ==> final(self)@ == old(self)@ && !r,
    {
        if !self.has_notified_client(client_id) {
            return false;
        }
        insert_client(&mut self.errored_clients, client_id);
        self.all_rejected_or_errored()
    }

    /// Forgets `client_id` as a notified, rejecting or failing client.
    fn forget_client(&mut self, client_id: &ClientId)
        requires
            old(self).wf(),
        ensures
            final(self).wf(),
            final(self)@ == without_client(old(self)@, client_id@),
    {
        remove_client(&mut self.notified_clients, client_id);
        remove_client(&mut self.rejected_clients, client_id);
        remove_client(&mut self.errored_clients, client_id);
    }

    /// The call as its callers see it.
    fn to_ringing_call(&self) -> (r: RingingCall)
        requires
            self.wf(),
        ensures
            r@ == ringing_public(self@),
            clients_distinct(r.notified_clients@),
    {
        RingingCall {
            call_id: self.call_id,
            caller_id: self.caller_id.clone(),
            target: self.target.clone(),
            notified_clients: clone_clients(&self.notified_clients),
        }
    }

    /// Ends the attempt: the call as its callers see it.
    fn complete(self) -> (r: RingingCall)
        requires
            self.wf(),
        ensures
            r@ == ringing_public(self@),
            clients_distinct(r.notified_clients@),
    {
        RingingCall {
            call_id: self.call_id,
            caller_id: self.caller_id,
            target: self.target,
            notified_clients: self.notified_clients,
        }
    }
}

/// An active call as the manager keeps it.
#[derive(Debug)]
struct ActiveCallEntry {
    call_id: CallId,
    caller_id: ClientId,
    callee_id: ClientId,
}

impl View for ActiveCallEntry {
    type V = ActiveCallView;

    closed spec fn view(&self) -> ActiveCallView {
        ActiveCallView { call_id: self.call_id, caller: self.caller_id@, callee: self.callee_id@ }
    }
}

impl ActiveCallEntry {
    fn involves(&self, client_id: &ClientId) -> (r: bool)
        ensures
            r == active_involves(self@, client_id@),
    {
        self.caller_id == *client_id || self.callee_id == *client_id
    }

    fn to_active_call(&self) -> (r: ActiveCall)
        ensures
            r@ == self@,
    {
        ActiveCall {
            call_id: self.call_id,
            caller_id: self.caller_id.clone(),
            callee_id: self.callee_id.clone(),
        }
    }
}

/// The incoming ringing calls of one client.
#[derive(Debug)]
struct IncomingCalls {
    client_id: ClientId,
    calls: Vec<CallId>,
}

/// The outgoing ringing call of one caller.
#[derive(Debug)]
struct OutgoingCall {
    client_id: ClientId,
    call_id: CallId,
}

spec fn ringing_key() -> spec_fn(RingingCallEntry) -> CallId {
    |e: RingingCallEntry| e.call_id
}

spec fn ringing_val() -> spec_fn(RingingCallEntry) -> RingingState {
    |e: RingingCallEntry| e@
}

spec fn active_key() -> spec_fn(ActiveCallEntry) -> CallId {
    |e: ActiveCallEntry| e.call_id
}

spec fn active_val() -> spec_fn(ActiveCallEntry) -> ActiveCallView {
    |e: ActiveCallEntry| e@
}

spec fn incoming_key() -> spec_fn(IncomingCalls) -> Seq<char> {
    |e: IncomingCalls| e.client_id@
}

spec fn incoming_val() -> spec_fn(IncomingCalls) -> Set<CallId> {
    |e: IncomingCalls| call_set(e.calls@)
}

spec fn outgoing_key() -> spec_fn(OutgoingCall) -> Seq<char> {
    |e: OutgoingCall| e.client_id@
}

spec fn outgoing_val() -> spec_fn(OutgoingCall) -> CallId {
    |e: OutgoingCall| e.call_id
}

/// One of the first `j` aborted calls was placed by `k`.
spec fn caller_among(aborted: Seq<RingingCallEntry>, j: int, k: Seq<char>) -> bool {
    exists|jj: int| 0 <= jj < j && #[trigger] aborted[jj]@.caller == k
}

/// The tables of the call manager.
#[verifier::ext_equal]
pub struct CallManagerView {
    /// Ringing calls by identifier.
    pub ringing: Map<CallId, RingingState>,
    /// Active calls by identifier.
    pub active: Map<CallId, ActiveCallView>,
    /// For each client, the ringing calls it was told of and has not yet
    /// answered.
    pub incoming: Map<Seq<char>, Set<CallId>>,
    /// For each caller, its ringing outgoing call.
    pub outgoing: Map<Seq<char>, CallId>,
}

/// `inc` with `call` taken out of the incoming calls of every client in
/// `clients`; a client left with none loses its entry.
pub open spec fn drop_call_for(
    inc: Map<Seq<char>, Set<CallId>>,
    clients: Set<Seq<char>>,
    call: CallId,
) -> Map<Seq<char>, Set<CallId>> {
    Map::new(
        |k: Seq<char>|
            inc.dom().contains(k) && !(clients.contains(k) && inc[k].remove(call) == Set::<
                CallId,
            >::empty()),
        |k: Seq<char>|
            if clients.contains(k) {
                inc[k].remove(call)
            } else {
                inc[k]
            },
    )
}

/// `inc` with `call` added to the incoming calls of every client in `clients`.
pub open spec fn add_call_for(
    inc: Map<Seq<char>, Set<CallId>>,
    clients: Set<Seq<char>>,
    call: CallId,
) -> Map<Seq<char>, Set<CallId>> {
    Map::new(
        |k: Seq<char>| inc.dom().contains(k) || clients.contains(k),
        |k: Seq<char>|
            if clients.contains(k) {
                if inc.dom().contains(k) {
                    inc[k].insert(call)
                } else {
                    Set::empty().insert(call)
                }
            } else {
                inc[k]
            },
    )
}

/// The tables after a ringing call is taken off: its caller has no outgoing
/// call any more, and its notified clients no longer have it incoming.
pub open spec fn cleaned_after(v: CallManagerView, r: RingingState) -> CallManagerView {
    CallManagerView {
        outgoing: v.outgoing.remove(r.caller),
        incoming: drop_call_for(v.incoming, r.notified, r.call_id),
        ..v
    }
}

/// The tables once `caller` starts ringing `id` at the clients `notified`.
pub open spec fn after_start(
    v: CallManagerView,
    id: CallId,
    caller: Seq<char>,
    target: CallTargetView,
    notified: Set<Seq<char>>,
) -> CallManagerView {
    CallManagerView {
        ringing: v.ringing.insert(
            id,
            RingingState {
                call_id: id,
                caller,
                target,
                notified,
                rejected: Set::empty(),
                errored: Set::empty(),
            },
        ),
        active: v.active,
        incoming: add_call_for(v.incoming, notified, id),
        outgoing: v.outgoing.insert(caller, id),
    }
}

/// The tables after the ringing call `id` is taken off and cleaned up after.
pub open spec fn without_ringing(v: CallManagerView, id: CallId) -> CallManagerView {
    cleaned_after(CallManagerView { ringing: v.ringing.remove(id), ..v }, v.ringing[id])
}

/// The tables, and the outcome, after `c` rejects the ringing call `id`
/// (`rejected`) or fails on it (`!rejected`).
pub open spec fn after_termination(v: CallManagerView, id: CallId, c: Seq<char>, rejected: bool) -> (
    CallManagerView,
    TerminationView,
) {
    let v1 = CallManagerView { incoming: drop_call_for(v.incoming, set![c], id), ..v };
    if !v.ringing.dom().contains(id) {
        (v1, TerminationView::CallNotFound)
    } else if !v.ringing[id].notified.contains(c) {
        (v1, TerminationView::ClientNotNotified)
    } else {
        let e = if rejected {
            with_rejected(v.ringing[id], c)
        } else {
            with_errored(v.ringing[id], c)
        };
        if all_failed(e) {
            (
                cleaned_after(CallManagerView { ringing: v1.ringing.remove(id), ..v1 }, e),
                TerminationView::Failed(ringing_public(e)),
            )
        } else {
            (CallManagerView { ringing: v1.ringing.insert(id, e), ..v1 }, TerminationView::Continued)
        }
    }
}

proof fn lemma_drop_none(inc: Map<Seq<char>, Set<CallId>>, call: CallId)
    ensures
        drop_call_for(inc, Set::empty(), call) == inc,
{
    assert(drop_call_for(inc, Set::empty(), call) =~= inc);
}

proof fn lemma_drop_step(
    inc: Map<Seq<char>, Set<CallId>>,
    clients: Set<Seq<char>>,
    c: Seq<char>,
    call: CallId,
)
    requires
        !clients.contains(c),
    ensures
        drop_call_for(drop_call_for(inc, clients, call), set![c], call) == drop_call_for(
            inc,
            clients.insert(c),
            call,
        ),
{
    assert(drop_call_for(drop_call_for(inc, clients, call), set![c], call) =~= drop_call_for(
        inc,
        clients.insert(c),
        call,
    ));
}

proof fn lemma_add_none(inc: Map<Seq<char>, Set<CallId>>, call: CallId)
    ensures
        add_call_for(inc, Set::empty(), call) == inc,
{
    assert(add_call_for(inc, Set::empty(), call) =~= inc);
}

proof fn lemma_add_step(
    inc: Map<Seq<char>, Set<CallId>>,
    clients: Set<Seq<char>>,
    c: Seq<char>,
    call: CallId,
)
    requires
        !clients.contains(c),
    ensures
        add_call_for(add_call_for(inc, clients, call), set![c], call) == add_call_for(
            inc,
            clients.insert(c),
            call,
        ),
{
    assert(add_call_for(add_call_for(inc, clients, call), set![c], call) =~= add_call_for(
        inc,
        clients.insert(c),
        call,
    ));
}

/// The first `i` members of a list without repeats do not include member `i`,
/// and with it they make up the first `i + 1`.
proof fn lemma_prefix_step(v: Seq<ClientId>, i: int)
    requires
        clients_distinct(v),
        0 <= i < v.len(),
    ensures
        !crate::sets::client_ids(v).subrange(0, i).to_set().contains(v[i]@),
        crate::sets::client_ids(v).subrange(0, i + 1).to_set() == crate::sets::client_ids(
            v,
        ).subrange(0, i).to_set().insert(v[i]@),
{
    let ids = crate::sets::client_ids(v);
    assert(ids.subrange(0, i + 1) =~= ids.subrange(0, i).push(v[i]@));
    ids.subrange(0, i).lemma_push_to_set_commute(v[i]@);
    if ids.subrange(0, i).to_set().contains(v[i]@) {
        let j = choose|j: int| 0 <= j < i && ids.subrange(0, i)[j] == v[i]@;
        assert(ids[j] == ids[i]);
    }
}

/// The outgoing call of `c`, where it is still ringing.
pub open spec fn outgoing_ringing(v: CallManagerView, c: Seq<char>) -> Option<CallId> {
    if v.outgoing.dom().contains(c) && v.ringing.dom().contains(v.outgoing[c]) {
        Some(v.outgoing[c])
    } else {
        None
    }
}

/// The tables once `c` has no outgoing call and its ringing outgoing call is
/// taken off.
pub open spec fn without_outgoing_of(v: CallManagerView, c: Seq<char>) -> CallManagerView {
    match outgoing_ringing(v, c) {
        Some(id) => CallManagerView {
            ringing: v.ringing.remove(id),
            active: v.active,
            incoming: drop_call_for(v.incoming, v.ringing[id].notified, id),
            outgoing: v.outgoing.remove(c),
        },
        None => CallManagerView { outgoing: v.outgoing.remove(c), ..v },
    }
}

/// The incoming calls of `c`.
pub open spec fn incoming_of(v: CallManagerView, c: Seq<char>) -> Set<CallId> {
    if v.incoming.dom().contains(c) {
        v.incoming[c]
    } else {
        Set::empty()
    }
}

/// The ringing call `id` is incoming for `c`, and fails once `c` leaves it.
pub open spec fn fails_without(v: CallManagerView, c: Seq<char>, id: CallId) -> bool {
    incoming_of(v, c).contains(id) && v.ringing.dom().contains(id) && all_failed(
        without_client(v.ringing[id], c),
    )
}

/// The ringing calls that the departure of `c` aborts, as they stand when
/// aborted: its outgoing call, and the incoming calls that fail without it.
pub open spec fn aborted_calls(v: CallManagerView, c: Seq<char>) -> Map<CallId, RingingState> {
    let v1 = without_outgoing_of(v, c);
    Map::new(
        |id: CallId| outgoing_ringing(v, c) == Some(id) || fails_without(v1, c, id),
        |id: CallId|
            if outgoing_ringing(v, c) == Some(id) {
                v.ringing[id]
            } else {
                without_client(v1.ringing[id], c)
            },
    )
}

/// The tables once the calls of `c` are cleaned up.
pub open spec fn after_cleanup(v: CallManagerView, c: Seq<char>) -> CallManagerView {
    let v1 = without_outgoing_of(v, c);
    let aborted = aborted_calls(v, c);
    CallManagerView {
        ringing: Map::new(
            |id: CallId| v1.ringing.dom().contains(id) && !fails_without(v1, c, id),
            |id: CallId|
                if incoming_of(v1, c).contains(id) {
                    without_client(v1.ringing[id], c)
                } else {
                    v1.ringing[id]
                },
        ),
        active: Map::new(
            |id: CallId| v.active.dom().contains(id) && !active_involves(v.active[id], c),
            |id: CallId| v.active[id],
        ),
        incoming: v1.incoming.remove(c),
        outgoing: Map::new(
            |k: Seq<char>|
                v1.outgoing.dom().contains(k) && !(exists|id: CallId|
                    #[trigger] aborted.dom().contains(id) && aborted[id].caller == k),
            |k: Seq<char>| v1.outgoing[k],
        ),
    }
}

/// Once the calls of a client are cleaned up, no active call involves it, and
/// it has neither an outgoing nor an incoming call.
pub proof fn lemma_cleanup_leaves_no_call_of_client(v: CallManagerView, c: Seq<char>)
    ensures
        forall|id: CallId|
            #[trigger] after_cleanup(v, c).active.dom().contains(id) ==> !active_involves(
                after_cleanup(v, c).active[id],
                c,
            ),
        !after_cleanup(v, c).outgoing.dom().contains(c),
        !after_cleanup(v, c).incoming.dom().contains(c),
{
}

/// Cleaning up the calls of a client a second time changes nothing and sends
/// no message.
pub proof fn lemma_cleanup_idempotent(v: CallManagerView, c: Seq<char>)
    ensures
        after_cleanup(after_cleanup(v, c), c) == after_cleanup(v, c),
        forall|n: CallNoticeView| !#[trigger] cleanup_notice(after_cleanup(v, c), c, n),
{
    let w = after_cleanup(v, c);
    let w1 = without_outgoing_of(w, c);
    assert(outgoing_ringing(w, c) is None);
    assert(w1 =~= CallManagerView { outgoing: w.outgoing.remove(c), ..w });
    assert(w.outgoing.remove(c) =~= w.outgoing);
    assert(incoming_of(w1, c) =~= Set::<CallId>::empty());
    assert(aborted_calls(w, c) =~= Map::<CallId, RingingState>::empty());
    assert(after_cleanup(w, c) =~= w);
}

/// A call attempt that its caller ends before anyone answers leaves the
/// tables as they were, where the caller had no outgoing call and the call's
/// identifier was in no table.
pub proof fn lemma_start_then_end_restores(
    m: CallManager,
    id: CallId,
    caller: Seq<char>,
    target: CallTargetView,
    notified: Set<Seq<char>>,
)
    requires
        m.wf(),
        !m@.outgoing.dom().contains(caller),
        !m@.ringing.dom().contains(id),
        forall|k: Seq<char>| #[trigger] m@.incoming.dom().contains(k) ==> !m@.incoming[k].contains(id),
    ensures
        without_ringing(after_start(m@, id, caller, target, notified), id) == m@,
{
    let v = m@;
    m.lemma_incoming_nonempty();
    let v1 = after_start(v, id, caller, target, notified);
    let v2 = without_ringing(v1, id);
    assert(v2.ringing =~= v.ringing);
    assert(v2.outgoing =~= v.outgoing);
    assert forall|k: Seq<char>| v2.incoming.dom().contains(k) <==> v.incoming.dom().contains(k) by {
        if notified.contains(k) && v.incoming.dom().contains(k) {
            assert(v.incoming[k].insert(id).remove(id) =~= v.incoming[k]);
        }
        if notified.contains(k) && !v.incoming.dom().contains(k) {
            assert(Set::<CallId>::empty().insert(id).remove(id) =~= Set::<CallId>::empty());
        }
    }
    assert forall|k: Seq<char>| v2.incoming.dom().contains(k) implies v2.incoming[k] == v.incoming[k] by {
        if notified.contains(k) {
            assert(v.incoming[k].insert(id).remove(id) =~= v.incoming[k]);
        }
    }
    assert(v2.incoming =~= v.incoming);
    assert(v2 =~= v);
}

/// Tracks ringing and active calls, and which clients they concern.
pub struct CallManager {
    ringing: Vec<RingingCallEntry>,
    active: Vec<ActiveCallEntry>,
    incoming: Vec<IncomingCalls>,
    outgoing: Vec<OutgoingCall>,
}

impl View for CallManager {
    type V = CallManagerView;

    closed spec fn view(&self) -> CallManagerView {
        CallManagerView {
            ringing: to_map(self.ringing@, ringing_key(), ringing_val()),
            active: to_map(self.active@, active_key(), active_val()),
            incoming: to_map(self.incoming@, incoming_key(), incoming_val()),
            outgoing: to_map(self.outgoing@, outgoing_key(), outgoing_val()),
        }
    }
}

impl CallManager {
    /// The tables have distinct keys, and each list in them holds its
    /// members once.
    pub closed spec fn wf(&self) -> bool {
        &&& keys_unique(self.ringing@, ringing_key())
        &&& keys_unique(self.active@, active_key())
        &&& keys_unique(self.incoming@, incoming_key())
        &&& keys_unique(self.outgoing@, outgoing_key())
        &&& forall|i: int| 0 <= i < self.ringing@.len() ==> #[trigger] self.ringing@[i].wf()
        &&& forall|i: int|
            0 <= i < self.incoming@.len() ==> #[trigger] self.incoming@[i].calls@.no_duplicates()
                && self.incoming@[i].calls@.len() > 0
    }

    /// Every client in the incoming table has at least one incoming call.
    pub proof fn lemma_incoming_nonempty(self)
        requires
            self.wf(),
        ensures
            forall|k: Seq<char>|
                #[trigger] self@.incoming.dom().contains(k) ==> self@.incoming[k] != Set::<
                    CallId,
                >::empty(),
    {
        assert forall|k: Seq<char>| #[trigger] self@.incoming.dom().contains(k) implies self@.incoming[k]
            != Set::<CallId>::empty() by {
            lemma_to_map_dom(self.incoming@, incoming_key(), incoming_val(), k);
            let i = choose|i: int| 0 <= i < self.incoming@.len() && self.incoming@[i].client_id@ == k;
            lemma_to_map_index(self.incoming@, incoming_key(), incoming_val(), i);
            assert(self.incoming@[i].calls@.no_duplicates());
            assert(call_set(self.incoming@[i].calls@).contains(self.incoming@[i].calls@[0]));
        }
    }

    /// A manager without calls.
    pub fn new() -> (r: Self)
        ensures
            r.wf(),
            r@.ringing == Map::<CallId, RingingState>::empty(),
            r@.active == Map::<CallId, ActiveCallView>::empty(),
            r@.incoming == Map::<Seq<char>, Set<CallId>>::empty(),
            r@.outgoing == Map::<Seq<char>, CallId>::empty(),
    {
        CallManager {
            ringing: Vec::new(),
            active: Vec::new(),
            incoming: Vec::new(),
            outgoing: Vec::new(),
        }
    }

    fn find_ringing(&self, call_id: CallId) -> (r: Option<usize>)
        requires
            self.wf(),
        ensures
            match r {
                Some(i) => i < self.ringing@.len() && self.ringing@[i as int].call_id == call_id
                    && self@.ringing.dom().contains(call_id) && self@.ringing[call_id]
                    == self.ringing@[i as int]@,
                None => !self@.ringing.dom().contains(call_id),
            },
    {
        let mut i: usize = 0;
        while i < self.ringing.len()
            invariant
                0 <= i <= self.ringing@.len(),
                self.wf(),
                forall|j: int| 0 <= j < i ==> self.ringing@[j].call_id != call_id,
            decreases self.ringing@.len() - i,
        {
            if self.ringing[i].call_id == call_id {
                proof {
                    lemma_to_map_index(self.ringing@, ringing_key(), ringing_val(), i as int);
                }
                return Some(i);
            }
            i = i + 1;
        }
        proof {
            lemma_to_map_dom(self.ringing@, ringing_key(), ringing_val(), call_id);
        }
        None
    }

    fn find_active(&self, call_id: CallId) -> (r: Option<usize>)
        requires
            self.wf(),
        ensures
            match r {
                Some(i) => i < self.active@.len() && self.active@[i as int].call_id == call_id
                    && self@.active.dom().contains(call_id) && self@.active[call_id]
                    == self.active@[i as int]@,
                None => !self@.active.dom().contains(call_id),
            },
    {
        let mut i: usize = 0;
        while i < self.active.len()
            invariant
                0 <= i <= self.active@.len(),
                self.wf(),
                forall|j: int| 0 <= j < i ==> self.active@[j].call_id != call_id,
            decreases self.active@.len() - i,
        {
            if self.active[i].call_id == call_id {
                proof {
                    lemma_to_map_index(self.active@, active_key(), active_val(), i as int);
                }
                return Some(i);
            }
            i = i + 1;
        }
        proof {
            lemma_to_map_dom(self.active@, active_key(), active_val(), call_id);
        }
        None
    }

    fn find_incoming(&self, client_id: &ClientId) -> (r: Option<usize>)
        requires
            self.wf(),
        ensures
            match r {
                Some(i) => i < self.incoming@.len() && self.incoming@[i as int].client_id@
                    == client_id@ && self@.incoming.dom().contains(client_id@)
                    && self@.incoming[client_id@] == call_set(self.incoming@[i as int].calls@),
                None => !self@.incoming.dom().contains(client_id@),
            },
    {
        let mut i: usize = 0;
        while i < self.incoming.len()
            invariant
                0 <= i <= self.incoming@.len(),
                self.wf(),
                forall|j: int| 0 <= j < i ==> self.incoming@[j].client_id@ != client_id@,
            decreases self.incoming@.len() - i,
        {
            if self.incoming[i].client_id == *client_id {
                proof {
                    lemma_to_map_index(self.incoming@, incoming_key(), incoming_val(), i as int);
                }
                return Some(i);
            }
            i = i + 1;
        }
        proof {
            lemma_to_map_dom(self.incoming@, incoming_key(), incoming_val(), client_id@);
        }
        None
    }

    fn find_outgoing(&self, client_id: &ClientId) -> (r: Option<usize>)
        requires
            self.wf(),
        ensures
            match r {
                Some(i) => i < self.outgoing@.len() && self.outgoing@[i as int].client_id@
                    == client_id@ && self@.outgoing.dom().contains(client_id@)
                    && self@.outgoing[client_id@] == self.outgoing@[i as int].call_id,
                None => !self@.outgoing.dom().contains(client_id@),
            },
    {
        let mut i: usize = 0;
        while i < self.outgoing.len()
            invariant
                0 <= i <= self.outgoing@.len(),
                self.wf(),
                forall|j: int| 0 <= j < i ==> self.outgoing@[j].client_id@ != client_id@,
            decreases self.outgoing@.len() - i,
        {
            if self.outgoing[i].client_id == *client_id {
                proof {
                    lemma_to_map_index(self.outgoing@, outgoing_key(), outgoing_val(), i as int);
                }
                return Some(i);
            }
            i = i + 1;
        }
        proof {
            lemma_to_map_dom(self.outgoing@, outgoing_key(), outgoing_val(), client_id@);
        }
        None
    }
    /// Takes out the ringing call at index `i`.
    fn take_ringing(&mut self, i: usize) -> (r: RingingCallEntry)
        requires
            old(self).wf(),
            i < old(self).ringing@.len(),
        ensures
            final(self).wf(),
            r.wf(),
            r.call_id == old(self).ringing@[i as int].call_id,
            old(self)@.ringing.dom().contains(r.call_id),
            r@ == old(self)@.ringing[r.call_id],
            final(self)@ == (CallManagerView {
                ringing: old(self)@.ringing.remove(r.call_id),
                ..old(self)@
            }),
    {
        proof {
            lemma_to_map_index(self.ringing@, ringing_key(), ringing_val(), i as int);
            lemma_to_map_remove(self.ringing@, ringing_key(), ringing_val(), i as int);
        }
        let ghost before = self.ringing@;
        let r = self.ringing.remove(i);
        assert forall|j: int| 0 <= j < self.ringing@.len() implies #[trigger] self.ringing@[j].wf() by {
            if j < i {
                assert(self.ringing@[j] == before[j]);
            } else {
                assert(self.ringing@[j] == before[j + 1]);
            }
        }
        r
    }

    /// Adds the ringing call `e`, whose identifier is not ringing yet.
    fn put_ringing(&mut self, e: RingingCallEntry)
        requires
            old(self).wf(),
            e.wf(),
            !old(self)@.ringing.dom().contains(e.call_id),
        ensures
            final(self).wf(),
            final(self)@ == (CallManagerView {
                ringing: old(self)@.ringing.insert(e.call_id, e@),
                ..old(self)@
            }),
    {
        proof {
            lemma_to_map_push(self.ringing@, ringing_key(), ringing_val(), e);
        }
        self.ringing.push(e);
    }

    /// Takes out the active call at index `i`.
    fn take_active(&mut self, i: usize) -> (r: ActiveCallEntry)
        requires
            old(self).wf(),
            i < old(self).active@.len(),
        ensures
            final(self).wf(),
            r.call_id == old(self).active@[i as int].call_id,
            old(self)@.active.dom().contains(r.call_id),
            r@ == old(self)@.active[r.call_id],
            final(self)@ == (CallManagerView {
                active: old(self)@.active.remove(r.call_id),
                ..old(self)@
            }),
    {
        proof {
            lemma_to_map_index(self.active@, active_key(), active_val(), i as int);
            lemma_to_map_remove(self.active@, active_key(), active_val(), i as int);
        }
        self.active.remove(i)
    }

    /// Sets the active call `e`, replacing one with its identifier.
    fn put_active(&mut self, e: ActiveCallEntry)
        requires
            old(self).wf(),
        ensures
            final(self).wf(),
            final(self)@ == (CallManagerView {
                active: old(self)@.active.insert(e.call_id, e@),
                ..old(self)@
            }),
    {
        match self.find_active(e.call_id) {
            Some(i) => {
                let _ = self.take_active(i);
            },
            None => {},
        }
        proof {
            lemma_to_map_push(self.active@, active_key(), active_val(), e);
        }
        let ghost key = e.call_id;
        let ghost val = e@;
        self.active.push(e);
        assert(self@.active =~= old(self)@.active.insert(key, val));
    }

    /// Forgets the outgoing call of `client_id`.
    fn remove_outgoing(&mut self, client_id: &ClientId) -> (r: Option<CallId>)
        requires
            old(self).wf(),
        ensures
            final(self).wf(),
            final(self)@ == (CallManagerView {
                outgoing: old(self)@.outgoing.remove(client_id@),
                ..old(self)@
            }),
            r == (if old(self)@.outgoing.dom().contains(client_id@) {
                Some(old(self)@.outgoing[client_id@])
            } else {
                None::<CallId>
            }),
    {
        match self.find_outgoing(client_id) {
            Some(i) => {
                proof {
                    lemma_to_map_remove(self.outgoing@, outgoing_key(), outgoing_val(), i as int);
                }
                let e = self.outgoing.remove(i);
                Some(e.call_id)
            },
            None => {
                assert(self@.outgoing.remove(client_id@) =~= self@.outgoing);
                None
            },
        }
    }

    /// Records `call_id` as the outgoing call of `client_id`.
    fn set_outgoing(&mut self, client_id: &ClientId, call_id: CallId)
        requires
            old(self).wf(),
        ensures
            final(self).wf(),
            final(self)@ == (CallManagerView {
                outgoing: old(self)@.outgoing.insert(client_id@, call_id),
                ..old(self)@
            }),
    {
        let _ = self.remove_outgoing(client_id);
        let e = OutgoingCall { client_id: client_id.clone(), call_id };
        proof {
            lemma_to_map_push(self.outgoing@, outgoing_key(), outgoing_val(), e);
        }
        self.outgoing.push(e);
        assert(self@.outgoing =~= old(self)@.outgoing.insert(client_id@, call_id));
    }

    /// Takes out the incoming entry at index `i`.
    fn take_incoming_at(&mut self, i: usize) -> (r: IncomingCalls)
        requires
            old(self).wf(),
            i < old(self).incoming@.len(),
        ensures
            final(self).wf(),
            r.calls@.no_duplicates(),
            r.calls@.len() > 0,
            old(self)@.incoming.dom().contains(r.client_id@),
            call_set(r.calls@) == old(self)@.incoming[r.client_id@],
            r.client_id@ == old(self).incoming@[i as int].client_id@,
            final(self)@ == (CallManagerView {
                incoming: old(self)@.incoming.remove(r.client_id@),
                ..old(self)@
            }),
    {
        proof {
            lemma_to_map_index(self.incoming@, incoming_key(), incoming_val(), i as int);
            lemma_to_map_remove(self.incoming@, incoming_key(), incoming_val(), i as int);
            assert(self.incoming@[i as int].calls@.no_duplicates());
        }
        let ghost before = self.incoming@;
        let e = self.incoming.remove(i);
        assert forall|j: int| 0 <= j < self.incoming@.len() implies #[trigger] self.incoming@[j].calls@.no_duplicates()
            && self.incoming@[j].calls@.len() > 0 by {
            if j < i {
                assert(self.incoming@[j] == before[j]);
                assert(before[j].calls@.no_duplicates());
            } else {
                assert(self.incoming@[j] == before[j + 1]);
                assert(before[j + 1].calls@.no_duplicates());
            }
        }
        e
    }

    /// Adds the incoming entry `e` for a client without one.
    fn put_incoming(&mut self, e: IncomingCalls)
        requires
            old(self).wf(),
            e.calls@.no_duplicates(),
            e.calls@.len() > 0,
            !old(self)@.incoming.dom().contains(e.client_id@),
        ensures
            final(self).wf(),
            final(self)@ == (CallManagerView {
                incoming: old(self)@.incoming.insert(e.client_id@, call_set(e.calls@)),
                ..old(self)@
            }),
    {
        proof {
            lemma_to_map_push(self.incoming@, incoming_key(), incoming_val(), e);
        }
        let ghost mid = self.incoming@;
        self.incoming.push(e);
        assert forall|j: int| 0 <= j < self.incoming@.len() implies #[trigger] self.incoming@[j].calls@.no_duplicates()
            && self.incoming@[j].calls@.len() > 0 by {
            if j < mid.len() {
                assert(self.incoming@[j] == mid[j]);
                assert(mid[j].calls@.no_duplicates());
            }
        }
    }

    /// Adds `call_id` to the incoming calls of `client_id`.
    fn add_incoming(&mut self, client_id: &ClientId, call_id: CallId)
        requires
            old(self).wf(),
        ensures
            final(self).wf(),
            final(self)@ == (CallManagerView {
                incoming: add_call_for(old(self)@.incoming, set![client_id@], call_id),
                ..old(self)@
            }),
    {
        let ghost v0 = self@;
        let mut calls: Vec<CallId> = match self.find_incoming(client_id) {
            Some(i) => self.take_incoming_at(i).calls,
            None => {
                let v: Vec<CallId> = Vec::new();
                assert(call_set(v@) =~= Set::<CallId>::empty());
                v
            },
        };
        insert_call(&mut calls, call_id);
        assert(call_set(calls@).contains(call_id));
        self.put_incoming(IncomingCalls { client_id: client_id.clone(), calls });
        assert(self@.incoming =~= add_call_for(v0.incoming, set![client_id@], call_id));
    }

    /// Takes `call_id` out of the incoming calls of `client_id`; a client
    /// left with none loses its entry.
    fn drop_incoming(&mut self, client_id: &ClientId, call_id: CallId)
        requires
            old(self).wf(),
        ensures
            final(self).wf(),
            final(self)@ == (CallManagerView {
                incoming: drop_call_for(old(self)@.incoming, set![client_id@], call_id),
                ..old(self)@
            }),
    {
        let ghost v0 = self@;
        match self.find_incoming(client_id) {
            Some(i) => {
                let e = self.take_incoming_at(i);
                let mut calls = e.calls;
                remove_call(&mut calls, call_id);
                if calls.len() > 0 {
                    self.put_incoming(IncomingCalls { client_id: e.client_id, calls });
                    assert(call_set(calls@).contains(calls@[0]));
                } else {
                    assert(call_set(calls@) =~= Set::<CallId>::empty());
                }
                assert(self@.incoming =~= drop_call_for(v0.incoming, set![client_id@], call_id));
            },
            None => {
                assert(self@.incoming =~= drop_call_for(v0.incoming, set![client_id@], call_id));
            },
        }
    }

    /// Takes `call_id` out of the incoming calls of each client in `clients`.
    fn drop_incoming_for(&mut self, clients: &Vec<ClientId>, call_id: CallId)
        requires
            old(self).wf(),
            clients_distinct(clients@),
        ensures
            final(self).wf(),
            final(self)@ == (CallManagerView {
                incoming: drop_call_for(old(self)@.incoming, client_set(clients@), call_id),
                ..old(self)@
            }),
    {
        let ghost v0 = self@;
        proof {
            lemma_drop_none(v0.incoming, call_id);
            assert(crate::sets::client_ids(clients@).subrange(0, 0).to_set() =~= Set::empty());
        }
        let mut i: usize = 0;
        while i < clients.len()
            invariant
                0 <= i <= clients@.len(),
                self.wf(),
                clients_distinct(clients@),
                self@ == (CallManagerView {
                    incoming: drop_call_for(
                        v0.incoming,
                        crate::sets::client_ids(clients@).subrange(0, i as int).to_set(),
                        call_id,
                    ),
                    ..v0
                }),
            decreases clients@.len() - i,
        {
            self.drop_incoming(&clients[i], call_id);
            proof {
                lemma_prefix_step(clients@, i as int);
                lemma_drop_step(
                    v0.incoming,
                    crate::sets::client_ids(clients@).subrange(0, i as int).to_set(),
                    clients@[i as int]@,
                    call_id,
                );
            }
            i = i + 1;
        }
        assert(crate::sets::client_ids(clients@).subrange(0, clients@.len() as int)
            =~= crate::sets::client_ids(clients@));
    }

    /// Adds `call_id` to the incoming calls of each client in `clients`.
    fn add_incoming_for(&mut self, clients: &Vec<ClientId>, call_id: CallId)
        requires
            old(self).wf(),
            clients_distinct(clients@),
        ensures
            final(self).wf(),
            final(self)@ == (CallManagerView {
                incoming: add_call_for(old(self)@.incoming, client_set(clients@), call_id),
                ..old(self)@
            }),
    {
        let ghost v0 = self@;
        proof {
            lemma_add_none(v0.incoming, call_id);
            assert(crate::sets::client_ids(clients@).subrange(0, 0).to_set() =~= Set::empty());
        }
        let mut i: usize = 0;
        while i < clients.len()
            invariant
                0 <= i <= clients@.len(),
                self.wf(),
                clients_distinct(clients@),
                self@ == (CallManagerView {
                    incoming: add_call_for(
                        v0.incoming,
                        crate::sets::client_ids(clients@).subrange(0, i as int).to_set(),
                        call_id,
                    ),
                    ..v0
                }),
            decreases clients@.len() - i,
        {
            self.add_incoming(&clients[i], call_id);
            proof {
                lemma_prefix_step(clients@, i as int);
                lemma_add_step(
                    v0.incoming,
                    crate::sets::client_ids(clients@).subrange(0, i as int).to_set(),
                    clients@[i as int]@,
                    call_id,
                );
            }
            i = i + 1;
        }
        assert(crate::sets::client_ids(clients@).subrange(0, clients@.len() as int)
            =~= crate::sets::client_ids(clients@));
    }

    /// After a ringing call is taken off: its caller has no outgoing call, and
    /// its notified clients no longer have it incoming.
    fn cleanup_ringing_call(&mut self, ringing: &RingingCallEntry)
        requires
            old(self).wf(),
            ringing.wf(),
        ensures
            final(self).wf(),
            final(self)@ == cleaned_after(old(self)@, ringing@),
    {
        let _ = self.remove_outgoing(&ringing.caller_id);
        self.drop_incoming_for(&ringing.notified_clients, ringing.call_id);
    }

    /// Whether `client_id` has an outgoing call ringing.
    pub fn has_outgoing_call(&self, client_id: &ClientId) -> (r: bool)
        requires
            self.wf(),
        ensures
            r == self@.outgoing.dom().contains(client_id@),
    {
        self.find_outgoing(client_id).is_some()
    }

    /// Whether `call_id` is an active call in which `client_id` takes part.
    pub fn has_active_call(&self, call_id: &CallId, client_id: &ClientId) -> (r: bool)
        requires
            self.wf(),
        ensures
            r == (self@.active.dom().contains(*call_id) && active_involves(
                self@.active[*call_id],
                client_id@,
            )),
    {
        match self.find_active(*call_id) {
            Some(i) => self.active[i].involves(client_id),
            None => false,
        }
    }

    /// The ringing call `call_id`, if there is one.
    pub fn ringing_call(&self, call_id: &CallId) -> (r: Option<RingingCall>)
        requires
            self.wf(),
        ensures
            match r {
                Some(rc) => self@.ringing.dom().contains(*call_id) && rc@ == ringing_public(
                    self@.ringing[*call_id],
                ),
                None => !self@.ringing.dom().contains(*call_id),
            },
    {
        match self.find_ringing(*call_id) {
            Some(i) => Some(self.ringing[i].to_ringing_call()),
            None => None,
        }
    }

    /// The active call `call_id`, if there is one.
    pub fn active_call(&self, call_id: &CallId) -> (r: Option<ActiveCall>)
        requires
            self.wf(),
        ensures
            match r {
                Some(a) => self@.active.dom().contains(*call_id) && a@ == self@.active[*call_id],
                None => !self@.active.dom().contains(*call_id),
            },
    {
        match self.find_active(*call_id) {
            Some(i) => Some(self.active[i].to_active_call()),
            None => None,
        }
    }

    /// The number of active calls.
    pub fn active_call_count(&self) -> (r: usize)
        requires
            self.wf(),
        ensures
            r == self@.active.dom().len(),
    {
        proof {
            crate::keyed::lemma_to_map_len(self.active@, active_key(), active_val());
        }
        self.active.len()
    }

    /// Starts ringing `call_id` from `caller_id` at each of `notified_clients`.
    /// Refused while the caller has an outgoing call ringing already.
    pub fn start_call_attempt(
        &mut self,
        call_id: &CallId,
        caller_id: &ClientId,
        target: &CallTarget,
        notified_clients: &Vec<ClientId>,
    ) -> (r: Result<(), StartCallError>)
        requires
            old(self).wf(),
        ensures
            final(self).wf(),
            r is Err <==> old(self)@.outgoing.dom().contains(caller_id@),
            r is Err ==> r == Err::<(), StartCallError>(StartCallError::CallerBusy) && final(self)@
                == old(self)@,
            r is Ok ==> final(self)@ == after_start(
                old(self)@,
                *call_id,
                caller_id@,
                target@,
                client_set(notified_clients@),
            ),
    {
        if self.has_outgoing_call(caller_id) {
            return Err(StartCallError::CallerBusy);
        }
        let notified = distinct_clients(notified_clients);
        self.add_incoming_for(&notified, *call_id);
        self.set_outgoing(caller_id, *call_id);
        let ghost v1 = self@;
        match self.find_ringing(*call_id) {
            Some(i) => {
                let _ = self.take_ringing(i);
            },
            None => {},
        }
        let entry = RingingCallEntry::new(*call_id, caller_id.clone(), target.clone(), notified);
        self.put_ringing(entry);
        assert(self@.ringing =~= v1.ringing.insert(
            *call_id,
            RingingState {
                call_id: *call_id,
                caller: caller_id@,
                target: target@,
                notified: client_set(notified_clients@),
                rejected: Set::empty(),
                errored: Set::empty(),
            },
        ));
        Ok(())
    }

    /// The rejection of `call_id` by `rejecting_client_id`.
    pub fn reject_call(&mut self, call_id: &CallId, rejecting_client_id: &ClientId) -> (r:
        CallTerminationOutcome)
        requires
            old(self).wf(),
        ensures
            final(self).wf(),
            final(self)@ == after_termination(
                old(self)@,
                *call_id,
                rejecting_client_id@,
                true,
            ).0,
        r@ == after_termination(
                old(self)@,
                *call_id,
                rejecting_client_id@,
                true,
            ).1,
    {
        self.terminate(call_id, rejecting_client_id, true)
    }

    /// The failure of `call_id` on `erroring_client_id`.
    pub fn call_error(&mut self, call_id: &CallId, erroring_client_id: &ClientId) -> (r:
        CallTerminationOutcome)
        requires
            old(self).wf(),
        ensures
            final(self).wf(),
            final(self)@ == after_termination(
                old(self)@,
                *call_id,
                erroring_client_id@,
                false,
            ).0,
        r@ == after_termination(
                old(self)@,
                *call_id,
                erroring_client_id@,
                false,
            ).1,
    {
        self.terminate(call_id, erroring_client_id, false)
    }

    fn terminate(&mut self, call_id: &CallId, client_id: &ClientId, rejected: bool) -> (r:
        CallTerminationOutcome)
        requires
            old(self).wf(),
        ensures
            final(self).wf(),
            final(self)@ == after_termination(old(self)@, *call_id, client_id@, rejected).0,
        r@ == after_termination(old(self)@, *call_id, client_id@, rejected).1,
    {
        self.drop_incoming(client_id, *call_id);
        match self.find_ringing(*call_id) {
            None => CallTerminationOutcome::CallNotFound,
            Some(i) => {
                if !self.ringing[i].has_notified_client(client_id) {
                    return CallTerminationOutcome::ClientNotNotified;
                }
                let mut entry = self.take_ringing(i);
                let failed = if rejected {
                    entry.mark_rejected(client_id)
                } else {
                    entry.mark_errored(client_id)
                };
                if failed {
                    self.cleanup_ringing_call(&entry);
                    CallTerminationOutcome::Failed(entry.complete())
                } else {
                    self.put_ringing(entry);
                    CallTerminationOutcome::Continued
                }
            },
        }
    }

    /// The acceptance of `call_id` by `accepting_client_id`: where the client
    /// was told of the call, it stops ringing and becomes active between the
    /// caller and that client.
    pub fn accept_call(&mut self, call_id: &CallId, accepting_client_id: &ClientId) -> (r: Option<
        RingingCall,
    >)
        requires
            old(self).wf(),
        ensures
            final(self).wf(),
            old(self)@.ringing.dom().contains(*call_id) && old(self)@.ringing[*call_id].notified.contains(
                accepting_client_id@,
            ) ==> (r matches Some(rc) && rc@ == ringing_public(old(self)@.ringing[*call_id])
                && final(self)@ == (CallManagerView {
                active: old(self)@.active.insert(
                    *call_id,
                    ActiveCallView {
                        call_id: *call_id,
                        caller: old(self)@.ringing[*call_id].caller,
                        callee: accepting_client_id@,
                    },
                ),
                ..without_ringing(old(self)@, *call_id)
            })),
            !(old(self)@.ringing.dom().contains(*call_id) && old(self)@.ringing[*call_id].notified.contains(accepting_client_id@)) ==> r is None && final(self)@ == old(self)@,
    {
        match self.find_ringing(*call_id) {
            Some(i) => {
                if !self.ringing[i].has_notified_client(accepting_client_id) {
                    return None;
                }
                let entry = self.take_ringing(i);
                self.cleanup_ringing_call(&entry);
                let active = ActiveCallEntry {
                    call_id: *call_id,
                    caller_id: entry.caller_id.clone(),
                    callee_id: accepting_client_id.clone(),
                };
                self.put_active(active);
                Some(entry.complete())
            },
            None => None,
        }
    }

    /// Cancels the ringing call `call_id` on behalf of `cancelling_client_id`,
    /// who must have placed it or been told of it. The attempt's `outcome`
    /// only matters to the counters that the application keeps.
    pub fn cancel_ringing_call(
        &mut self,
        call_id: &CallId,
        cancelling_client_id: &ClientId,
        outcome: CallAttemptOutcome,
    ) -> (r: Option<RingingCall>)
        requires
            old(self).wf(),
        ensures
            final(self).wf(),
            old(self)@.ringing.dom().contains(*call_id) && ringing_involves(
                old(self)@.ringing[*call_id],
                cancelling_client_id@,
            ) ==> (r matches Some(rc) && rc@ == ringing_public(old(self)@.ringing[*call_id])
                && final(self)@ == without_ringing(old(self)@, *call_id)),
            !(old(self)@.ringing.dom().contains(*call_id) && ringing_involves(
                old(self)@.ringing[*call_id],
                cancelling_client_id@,
            )) ==> r is None && final(self)@ == old(self)@,
    {
        match self.find_ringing(*call_id) {
            Some(i) => {
                if !self.ringing[i].involves(cancelling_client_id) {
                    return None;
                }
                let entry = self.take_ringing(i);
                self.cleanup_ringing_call(&entry);
                Some(entry.complete())
            },
            None => None,
        }
    }

    /// Ends the ringing call `call_id` on behalf of its caller
    /// `cancelling_client_id`.
    pub fn end_ringing_call(&mut self, call_id: &CallId, cancelling_client_id: &ClientId) -> (r:
        Option<RingingCall>)
        requires
            old(self).wf(),
        ensures
            final(self).wf(),
            old(self)@.ringing.dom().contains(*call_id) && old(self)@.ringing[*call_id].caller
                == cancelling_client_id@ ==> (r matches Some(rc) && rc@ == ringing_public(
                old(self)@.ringing[*call_id],
            ) && final(self)@ == without_ringing(old(self)@, *call_id)),
            !(old(self)@.ringing.dom().contains(*call_id) && old(self)@.ringing[*call_id].caller
                == cancelling_client_id@) ==> r is None && final(self)@ == old(self)@,
    {
        match self.find_ringing(*call_id) {
            Some(i) => {
                if self.ringing[i].caller_id != *cancelling_client_id {
                    return None;
                }
                let entry = self.take_ringing(i);
                self.cleanup_ringing_call(&entry);
                Some(entry.complete())
            },
            None => None,
        }
    }

    /// Ends the active call `call_id` on behalf of `ending_client_id`, who must
    /// take part in it.
    pub fn end_active_call(&mut self, call_id: &CallId, ending_client_id: &ClientId) -> (r: Option<
        ActiveCall,
    >)
        requires
            old(self).wf(),
        ensures
            final(self).wf(),
            old(self)@.active.dom().contains(*call_id) && active_involves(
                old(self)@.active[*call_id],
                ending_client_id@,
            ) ==> (r matches Some(a) && a@ == old(self)@.active[*call_id] && final(self)@ == (
            CallManagerView { active: old(self)@.active.remove(*call_id), ..old(self)@ })),
            !(old(self)@.active.dom().contains(*call_id) && active_involves(
                old(self)@.active[*call_id],
                ending_client_id@,
            )) ==> r is None && final(self)@ == old(self)@,
    {
        match self.find_active(*call_id) {
            Some(i) => {
                if !self.active[i].involves(ending_client_id) {
                    return None;
                }
                let entry = self.take_active(i);
                Some(
                    ActiveCall {
                        call_id: entry.call_id,
                        caller_id: entry.caller_id,
                        callee_id: entry.callee_id,
                    },
                )
            },
            None => None,
        }
    }
    /// Takes out the incoming calls of `client_id`, none where it has no entry.
    fn take_incoming(&mut self, client_id: &ClientId) -> (r: Vec<CallId>)
        requires
            old(self).wf(),
        ensures
            final(self).wf(),
            r@.no_duplicates(),
            call_set(r@) == (if old(self)@.incoming.dom().contains(client_id@) {
                old(self)@.incoming[client_id@]
            } else {
                Set::empty()
            }),
            final(self)@ == (CallManagerView {
                incoming: old(self)@.incoming.remove(client_id@),
                ..old(self)@
            }),
    {
        match self.find_incoming(client_id) {
            Some(i) => self.take_incoming_at(i).calls,
            None => {
                assert(self@.incoming.remove(client_id@) =~= self@.incoming);
                let v: Vec<CallId> = Vec::new();
                assert(call_set(v@) =~= Set::<CallId>::empty());
                v
            },
        }
    }

    /// Removes every active call in which `client_id` takes part, and returns
    /// them.
    fn remove_active_calls_of(&mut self, client_id: &ClientId) -> (r: Vec<ActiveCallEntry>)
        requires
            old(self).wf(),
        ensures
            final(self).wf(),
            final(self)@ == (CallManagerView {
                active: Map::new(
                    |id: CallId|
                        old(self)@.active.dom().contains(id) && !active_involves(
                            old(self)@.active[id],
                            client_id@,
                        ),
                    |id: CallId| old(self)@.active[id],
                ),
                ..old(self)@
            }),
            keys_unique(r@, active_key()),
            to_map(r@, active_key(), active_val()) == Map::new(
                |id: CallId|
                    old(self)@.active.dom().contains(id) && active_involves(
                        old(self)@.active[id],
                        client_id@,
                    ),
                |id: CallId| old(self)@.active[id],
            ),
    {
        let ghost v0 = self@;
        let mut all: Vec<ActiveCallEntry> = Vec::new();
        std::mem::swap(&mut all, &mut self.active);
        let mut kept: Vec<ActiveCallEntry> = Vec::new();
        let mut removed: Vec<ActiveCallEntry> = Vec::new();
        let mut i: usize = 0;
        while i < all.len()
            invariant
                0 <= i <= all@.len(),
                keys_unique(all@, active_key()),
                to_map(all@, active_key(), active_val()) == v0.active,
                keys_unique(kept@, active_key()),
                keys_unique(removed@, active_key()),
                forall|id: CallId|
                    #![trigger to_map(kept@, active_key(), active_val()).dom().contains(id)]
                    to_map(kept@, active_key(), active_val()).dom().contains(id) <==> exists|j: int|
                        0 <= j < i && all@[j].call_id == id && !active_involves(
                            all@[j]@,
                            client_id@,
                        ),
                forall|id: CallId|
                    #![trigger to_map(removed@, active_key(), active_val()).dom().contains(id)]
                    to_map(removed@, active_key(), active_val()).dom().contains(id) <==> exists|
                        j: int,
                    | 0 <= j < i && all@[j].call_id == id && active_involves(all@[j]@, client_id@),
                forall|id: CallId|
                    #[trigger] to_map(kept@, active_key(), active_val()).dom().contains(id) ==> to_map(
                        kept@,
                        active_key(),
                        active_val(),
                    )[id] == v0.active[id],
                forall|id: CallId|
                    #[trigger] to_map(removed@, active_key(), active_val()).dom().contains(id)
                        ==> to_map(removed@, active_key(), active_val())[id] == v0.active[id],
            decreases all@.len() - i,
        {
            let e = ActiveCallEntry {
                call_id: all[i].call_id,
                caller_id: all[i].caller_id.clone(),
                callee_id: all[i].callee_id.clone(),
            };
            proof {
                lemma_to_map_index(all@, active_key(), active_val(), i as int);
                assert forall|j: int| 0 <= j < i implies all@[j].call_id != e.call_id by {
                    assert(all@[j].call_id != all@[i as int].call_id);
                }
                lemma_to_map_dom(kept@, active_key(), active_val(), e.call_id);
                lemma_to_map_dom(removed@, active_key(), active_val(), e.call_id);
            }
            if all[i].involves(client_id) {
                proof {
                    lemma_to_map_push(removed@, active_key(), active_val(), e);
                }
                removed.push(e);
            } else {
                proof {
                    lemma_to_map_push(kept@, active_key(), active_val(), e);
                }
                kept.push(e);
            }
            i = i + 1;
        }
        proof {
            assert forall|id: CallId|
                #![trigger v0.active.dom().contains(id)]
                v0.active.dom().contains(id) ==> exists|j: int|
                    0 <= j < all@.len() && all@[j].call_id == id && all@[j]@ == v0.active[id] by {
                if v0.active.dom().contains(id) {
                    lemma_to_map_dom(all@, active_key(), active_val(), id);
                    let j = choose|j: int| 0 <= j < all@.len() && all@[j].call_id == id;
                    lemma_to_map_index(all@, active_key(), active_val(), j);
                }
            }
            assert forall|j: int| 0 <= j < all@.len() implies v0.active.dom().contains(
                #[trigger] all@[j].call_id,
            ) && v0.active[all@[j].call_id] == all@[j]@ by {
                lemma_to_map_index(all@, active_key(), active_val(), j);
            }
        }
        self.active = kept;
        assert(self@.active =~= Map::new(
            |id: CallId| v0.active.dom().contains(id) && !active_involves(v0.active[id], client_id@),
            |id: CallId| v0.active[id],
        ));
        assert(to_map(removed@, active_key(), active_val()) =~= Map::new(
            |id: CallId| v0.active.dom().contains(id) && active_involves(v0.active[id], client_id@),
            |id: CallId| v0.active[id],
        ));
        removed
    }
    /// First step of a cleanup: `client_id` loses its outgoing call, and the
    /// call, where it still rings, is taken off and recorded in `aborted`.
    fn abort_outgoing(&mut self, client_id: &ClientId, aborted: &mut Vec<RingingCallEntry>)
        requires
            old(self).wf(),
            old(aborted)@.len() == 0,
        ensures
            final(self).wf(),
            final(self)@ == without_outgoing_of(old(self)@, client_id@),
            keys_unique(final(aborted)@, ringing_key()),
            forall|j: int| 0 <= j < final(aborted)@.len() ==> #[trigger] final(aborted)@[j].wf(),
            to_map(final(aborted)@, ringing_key(), ringing_val()) == (match outgoing_ringing(
                old(self)@,
                client_id@,
            ) {
                Some(id) => Map::empty().insert(id, old(self)@.ringing[id]),
                None => Map::<CallId, RingingState>::empty(),
            }),
    {
        let ghost v0 = self@;
        let out = self.remove_outgoing(client_id);
        match out {
            Some(oid) => {
                match self.find_ringing(oid) {
                    Some(i) => {
                        let e = self.take_ringing(i);
                        self.drop_incoming_for(&e.notified_clients, oid);
                        proof {
                            lemma_to_map_push(aborted@, ringing_key(), ringing_val(), e);
                        }
                        aborted.push(e);
                        assert(self@ =~= without_outgoing_of(v0, client_id@));
                    },
                    None => {
                        assert(self@ =~= without_outgoing_of(v0, client_id@));
                    },
                }
            },
            None => {
                assert(self@ =~= without_outgoing_of(v0, client_id@));
            },
        }
    }

    /// Second step of a cleanup: `client_id` loses its incoming calls and
    /// leaves each of them; those that fail without it are taken off and
    /// recorded in `aborted`.
    fn leave_incoming(&mut self, client_id: &ClientId, aborted: &mut Vec<RingingCallEntry>)
        requires
            old(self).wf(),
            keys_unique(old(aborted)@, ringing_key()),
            forall|j: int| 0 <= j < old(aborted)@.len() ==> #[trigger] old(aborted)@[j].wf(),
            forall|id: CallId|
                #[trigger] to_map(old(aborted)@, ringing_key(), ringing_val()).dom().contains(id)
                    ==> !old(self)@.ringing.dom().contains(id),
        ensures
            final(self).wf(),
            keys_unique(final(aborted)@, ringing_key()),
            forall|j: int| 0 <= j < final(aborted)@.len() ==> #[trigger] final(aborted)@[j].wf(),
            final(self)@ == (CallManagerView {
                ringing: Map::new(
                    |id: CallId|
                        old(self)@.ringing.dom().contains(id) && !fails_without(
                            old(self)@,
                            client_id@,
                            id,
                        ),
                    |id: CallId|
                        if incoming_of(old(self)@, client_id@).contains(id) {
                            without_client(old(self)@.ringing[id], client_id@)
                        } else {
                            old(self)@.ringing[id]
                        },
                ),
                incoming: old(self)@.incoming.remove(client_id@),
                ..old(self)@
            }),
            to_map(final(aborted)@, ringing_key(), ringing_val()) == Map::new(
                |id: CallId|
                    to_map(old(aborted)@, ringing_key(), ringing_val()).dom().contains(id)
                        || fails_without(old(self)@, client_id@, id),
                |id: CallId|
                    if to_map(old(aborted)@, ringing_key(), ringing_val()).dom().contains(id) {
                        to_map(old(aborted)@, ringing_key(), ringing_val())[id]
                    } else {
                        without_client(old(self)@.ringing[id], client_id@)
                    },
            ),
    {
        let ghost v1 = self@;
        let ghost a0 = to_map(aborted@, ringing_key(), ringing_val());
        let c = client_id;
        let ids = self.take_incoming(client_id);
        let ghost v2 = self@;
        proof {
            assert(ids@.subrange(0, 0) =~= Seq::<CallId>::empty());
            assert(self@.ringing =~= Map::new(
                |id: CallId|
                    v1.ringing.dom().contains(id) && !(ids@.subrange(0, 0).contains(id)
                        && all_failed(without_client(v1.ringing[id], c@))),
                |id: CallId|
                    if ids@.subrange(0, 0).contains(id) {
                        without_client(v1.ringing[id], c@)
                    } else {
                        v1.ringing[id]
                    },
            ));
            assert(to_map(aborted@, ringing_key(), ringing_val()) =~= Map::new(
                |id: CallId|
                    a0.dom().contains(id) || (ids@.subrange(0, 0).contains(id)
                        && v1.ringing.dom().contains(id) && all_failed(
                        without_client(v1.ringing[id], c@),
                    )),
                |id: CallId|
                    if a0.dom().contains(id) {
                        a0[id]
                    } else {
                        without_client(v1.ringing[id], c@)
                    },
            ));
        }
        let mut k: usize = 0;
        while k < ids.len()
            invariant
                0 <= k <= ids@.len(),
                self.wf(),
                ids@.no_duplicates(),
                call_set(ids@) == incoming_of(v1, c@),
                forall|id: CallId| #[trigger] a0.dom().contains(id) ==> !v1.ringing.dom().contains(id),
                self@.active == v1.active,
                self@.outgoing == v1.outgoing,
                self@.incoming == v1.incoming.remove(c@),
                self@.ringing == Map::new(
                    |id: CallId|
                        v1.ringing.dom().contains(id) && !(ids@.subrange(0, k as int).contains(id)
                            && all_failed(without_client(v1.ringing[id], c@))),
                    |id: CallId|
                        if ids@.subrange(0, k as int).contains(id) {
                            without_client(v1.ringing[id], c@)
                        } else {
                            v1.ringing[id]
                        },
                ),
                keys_unique(aborted@, ringing_key()),
                forall|j: int| 0 <= j < aborted@.len() ==> #[trigger] aborted@[j].wf(),
                to_map(aborted@, ringing_key(), ringing_val()) == Map::new(
                    |id: CallId|
                        a0.dom().contains(id) || (ids@.subrange(0, k as int).contains(id)
                            && v1.ringing.dom().contains(id) && all_failed(
                            without_client(v1.ringing[id], c@),
                        )),
                    |id: CallId|
                        if a0.dom().contains(id) {
                            a0[id]
                        } else {
                            without_client(v1.ringing[id], c@)
                        },
                ),
            decreases ids@.len() - k,
        {
            let id = ids[k];
            let ghost done = ids@.subrange(0, k as int);
            let ghost done2 = ids@.subrange(0, k + 1);
            proof {
                assert(done2 =~= done.push(id));
                assert forall|x: CallId| done2.contains(x) <==> (done.contains(x) || x == id) by {
                    if done2.contains(x) {
                        let j = choose|j: int| 0 <= j < done2.len() && done2[j] == x;
                        if j < k {
                            assert(done[j] == x);
                        }
                    }
                    if done.contains(x) {
                        let j = choose|j: int| 0 <= j < done.len() && done[j] == x;
                        assert(done2[j] == x);
                    }
                    if x == id {
                        assert(done2[k as int] == x);
                    }
                }
                if done.contains(id) {
                    let j = choose|j: int| 0 <= j < done.len() && done[j] == id;
                    assert(ids@[j] == ids@[k as int]);
                }
            }
            match self.find_ringing(id) {
                Some(i) => {
                    let mut e = self.take_ringing(i);
                    e.forget_client(c);
                    if e.all_rejected_or_errored() {
                        proof {
                            lemma_to_map_push(aborted@, ringing_key(), ringing_val(), e);
                        }
                        aborted.push(e);
                    } else {
                        self.put_ringing(e);
                    }
                    proof {
                        assert(self@.ringing =~= Map::new(
                            |x: CallId|
                                v1.ringing.dom().contains(x) && !(done2.contains(x) && all_failed(
                                    without_client(v1.ringing[x], c@),
                                )),
                            |x: CallId|
                                if done2.contains(x) {
                                    without_client(v1.ringing[x], c@)
                                } else {
                                    v1.ringing[x]
                                },
                        ));
                        assert(to_map(aborted@, ringing_key(), ringing_val()) =~= Map::new(
                            |x: CallId|
                                a0.dom().contains(x) || (done2.contains(x)
                                    && v1.ringing.dom().contains(x) && all_failed(
                                    without_client(v1.ringing[x], c@),
                                )),
                            |x: CallId|
                                if a0.dom().contains(x) {
                                    a0[x]
                                } else {
                                    without_client(v1.ringing[x], c@)
                                },
                        ));
                    }
                },
                None => {
                    proof {
                        assert(self@.ringing =~= Map::new(
                            |x: CallId|
                                v1.ringing.dom().contains(x) && !(done2.contains(x) && all_failed(
                                    without_client(v1.ringing[x], c@),
                                )),
                            |x: CallId|
                                if done2.contains(x) {
                                    without_client(v1.ringing[x], c@)
                                } else {
                                    v1.ringing[x]
                                },
                        ));
                        assert(to_map(aborted@, ringing_key(), ringing_val()) =~= Map::new(
                            |x: CallId|
                                a0.dom().contains(x) || (done2.contains(x)
                                    && v1.ringing.dom().contains(x) && all_failed(
                                    without_client(v1.ringing[x], c@),
                                )),
                            |x: CallId|
                                if a0.dom().contains(x) {
                                    a0[x]
                                } else {
                                    without_client(v1.ringing[x], c@)
                                },
                        ));
                    }
                },
            }
            k = k + 1;
        }
        proof {
            assert(ids@.subrange(0, ids@.len() as int) =~= ids@);
            assert forall|x: CallId| ids@.contains(x) <==> incoming_of(v1, c@).contains(x) by {
                assert(call_set(ids@).contains(x) <==> ids@.contains(x));
            }
            assert(self@.ringing =~= Map::new(
                |id: CallId| v1.ringing.dom().contains(id) && !fails_without(v1, c@, id),
                |id: CallId|
                    if incoming_of(v1, c@).contains(id) {
                        without_client(v1.ringing[id], c@)
                    } else {
                        v1.ringing[id]
                    },
            ));
            assert(to_map(aborted@, ringing_key(), ringing_val()) =~= Map::new(
                |id: CallId| a0.dom().contains(id) || fails_without(v1, c@, id),
                |id: CallId|
                    if a0.dom().contains(id) {
                        a0[id]
                    } else {
                        without_client(v1.ringing[id], c@)
                    },
            ));
        }
    }
    /// Fourth step of a cleanup: the callers of the aborted calls lose their
    /// outgoing calls.
    fn release_callers(&mut self, aborted: &Vec<RingingCallEntry>)
        requires
            old(self).wf(),
        ensures
            final(self).wf(),
            final(self)@ == (CallManagerView {
                outgoing: Map::new(
                    |k: Seq<char>|
                        old(self)@.outgoing.dom().contains(k) && !caller_among(
                            aborted@,
                            aborted@.len() as int,
                            k,
                        ),
                    |k: Seq<char>| old(self)@.outgoing[k],
                ),
                ..old(self)@
            }),
    {
        let ghost v0 = self@;
        assert(self@.outgoing =~= Map::new(
            |k: Seq<char>| v0.outgoing.dom().contains(k) && !caller_among(aborted@, 0, k),
            |k: Seq<char>| v0.outgoing[k],
        ));
        let mut j: usize = 0;
        while j < aborted.len()
            invariant
                0 <= j <= aborted@.len(),
                self.wf(),
                self@ == (CallManagerView {
                    outgoing: Map::new(
                        |k: Seq<char>|
                            v0.outgoing.dom().contains(k) && !caller_among(aborted@, j as int, k),
                        |k: Seq<char>| v0.outgoing[k],
                    ),
                    ..v0
                }),
            decreases aborted@.len() - j,
        {
            let _ = self.remove_outgoing(&aborted[j].caller_id);
            proof {
                assert forall|k: Seq<char>|
                    #[trigger] caller_among(aborted@, j + 1, k) <==> (caller_among(
                        aborted@,
                        j as int,
                        k,
                    ) || k == aborted@[j as int]@.caller) by {
                    if caller_among(aborted@, j + 1, k) {
                        let jj = choose|jj: int|
                            0 <= jj < j + 1 && #[trigger] aborted@[jj]@.caller == k;
                        if jj < j {
                            assert(aborted@[jj]@.caller == k);
                        }
                    }
                    if caller_among(aborted@, j as int, k) {
                        let jj = choose|jj: int| 0 <= jj < j && #[trigger] aborted@[jj]@.caller == k;
                        assert(aborted@[jj]@.caller == k);
                    }
                    if k == aborted@[j as int]@.caller {
                        assert(aborted@[j as int]@.caller == k);
                    }
                }
                assert(self@.outgoing =~= Map::new(
                    |k: Seq<char>|
                        v0.outgoing.dom().contains(k) && !caller_among(aborted@, j + 1, k),
                    |k: Seq<char>| v0.outgoing[k],
                ));
            }
            j = j + 1;
        }
    }

    /// Takes off every call of `client_id` as it leaves: its outgoing call,
    /// the incoming calls that fail without it, and its active calls. Returns
    /// the messages to send: to the notified clients of its outgoing call, to
    /// the callers of the failed incoming calls, and to the other party of
    /// each active call.
    pub fn cleanup_client_calls(&mut self, client_id: &ClientId) -> (r: Vec<CallNotice>)
        requires
            old(self).wf(),
        ensures
            final(self).wf(),
            final(self)@ == after_cleanup(old(self)@, client_id@),
            forall|i: int|
                0 <= i < r@.len() ==> #[trigger] cleanup_notice(old(self)@, client_id@, r@[i]@),
            forall|n: CallNoticeView|
                #[trigger] cleanup_notice(old(self)@, client_id@, n) ==> exists|i: int|
                    0 <= i < r@.len() && r@[i]@ == n,
    {
        let ghost v0 = self@;
        let ghost c = client_id@;
        let mut aborted: Vec<RingingCallEntry> = Vec::new();
        self.abort_outgoing(client_id, &mut aborted);
        let ghost v1 = self@;
        let ghost a0 = to_map(aborted@, ringing_key(), ringing_val());
        self.leave_incoming(client_id, &mut aborted);
        let ghost am = to_map(aborted@, ringing_key(), ringing_val());
        proof {
            assert(am =~= aborted_calls(v0, c));
        }
        let ended = self.remove_active_calls_of(client_id);
        self.release_callers(&aborted);
        proof {
            assert forall|j: int| 0 <= j < ended@.len() implies active_involves(
                #[trigger] ended@[j]@,
                c,
            ) by {
                lemma_to_map_index(ended@, active_key(), active_val(), j);
            }
            assert forall|k: Seq<char>|
                #[trigger] caller_among(aborted@, aborted@.len() as int, k) <==> (exists|id: CallId|
                    #[trigger] am.dom().contains(id) && am[id].caller == k) by {
                if caller_among(aborted@, aborted@.len() as int, k) {
                    let j = choose|j: int| 0 <= j < aborted@.len() && #[trigger] aborted@[j]@.caller == k;
                    lemma_to_map_index(aborted@, ringing_key(), ringing_val(), j);
                    assert(am.dom().contains(aborted@[j].call_id));
                }
                if exists|id: CallId| #[trigger] am.dom().contains(id) && am[id].caller == k {
                    let id = choose|id: CallId| #[trigger] am.dom().contains(id) && am[id].caller == k;
                    lemma_to_map_dom(aborted@, ringing_key(), ringing_val(), id);
                    let j = choose|j: int| 0 <= j < aborted@.len() && aborted@[j].call_id == id;
                    lemma_to_map_index(aborted@, ringing_key(), ringing_val(), j);
                    assert(aborted@[j]@.caller == k);
                }
            }
            assert(self@.outgoing =~= after_cleanup(v0, c).outgoing);
            assert(self@ =~= after_cleanup(v0, c));
        }
        let notices = cleanup_notices(&aborted, &ended, client_id);
        proof {
            assert forall|i: int| 0 <= i < notices@.len() implies #[trigger] cleanup_notice(
                v0,
                c,
                notices@[i]@,
            ) by {
                let n = notices@[i]@;
                assert(from_calls(aborted@, ended@, c, n));
                if exists|j: int| 0 <= j < aborted@.len() && ringing_notice(#[trigger] aborted@[j]@, c, n) {
                    let j = choose|j: int|
                        0 <= j < aborted@.len() && ringing_notice(#[trigger] aborted@[j]@, c, n);
                    lemma_to_map_index(aborted@, ringing_key(), ringing_val(), j);
                } else {
                    let j = choose|j: int|
                        0 <= j < ended@.len() && active_notice(#[trigger] ended@[j]@, c, n);
                    lemma_to_map_index(ended@, active_key(), active_val(), j);
                }
            }
            assert forall|n: CallNoticeView| #[trigger] cleanup_notice(v0, c, n) implies exists|
                i: int,
            | 0 <= i < notices@.len() && notices@[i]@ == n by {
                match n {
                    CallNoticeView::Cancelled { call_id, .. } => {
                        lemma_to_map_dom(aborted@, ringing_key(), ringing_val(), call_id);
                        let j = choose|j: int| 0 <= j < aborted@.len() && aborted@[j].call_id == call_id;
                        lemma_to_map_index(aborted@, ringing_key(), ringing_val(), j);
                        assert(ringing_notice(aborted@[j]@, c, n));
                    },
                    CallNoticeView::Ended { call_id, .. } => {
                        lemma_to_map_dom(ended@, active_key(), active_val(), call_id);
                        let j = choose|j: int| 0 <= j < ended@.len() && ended@[j].call_id == call_id;
                        lemma_to_map_index(ended@, active_key(), active_val(), j);
                        assert(active_notice(ended@[j]@, c, n));
                    },
                }
            }
        }
        notices
    }
}

/// Appends the notices of the aborted ringing call `e` when `client_id`
/// leaves.
fn push_ringing_notices(notices: &mut Vec<CallNotice>, e: &RingingCallEntry, client_id: &ClientId)
    requires
        e.wf(),
    ensures
        final(notices)@.len() >= old(notices)@.len(),
        forall|i: int| 0 <= i < old(notices)@.len() ==> #[trigger] final(notices)@[i] == old(notices)@[i],
        forall|i: int|
            old(notices)@.len() <= i < final(notices)@.len() ==> ringing_notice(
                e@,
                client_id@,
                #[trigger] final(notices)@[i]@,
            ),
        forall|n: CallNoticeView|
            #[trigger] ringing_notice(e@, client_id@, n) ==> exists|i: int|
                old(notices)@.len() <= i < final(notices)@.len() && final(notices)@[i]@ == n,
{
    let ghost n0 = notices@;
    if e.caller_id == *client_id {
        let mut m: usize = 0;
        while m < e.notified_clients.len()
            invariant
                0 <= m <= e.notified_clients@.len(),
                e.caller_id@ == client_id@,
                notices@.len() == n0.len() + m,
                forall|i: int| 0 <= i < n0.len() ==> #[trigger] notices@[i] == n0[i],
                forall|i: int|
                    n0.len() <= i < notices@.len() ==> ringing_notice(
                        e@,
                        client_id@,
                        #[trigger] notices@[i]@,
                    ),
                forall|j: int|
                    0 <= j < m ==> #[trigger] notices@[n0.len() + j]@ == (CallNoticeView::Cancelled {
                        to: e.notified_clients@[j]@,
                        call_id: e.call_id,
                        reason: CallCancelReasonView::CallerCancelled,
                    }),
            decreases e.notified_clients@.len() - m,
        {
            let to = e.notified_clients[m].clone();
            proof {
                assert(crate::sets::client_ids(e.notified_clients@)[m as int] == to@);
            }
            let message = CallCancelled::new(e.call_id, CallCancelReason::CallerCancelled);
            notices.push(CallNotice::Cancelled { to, cancelled: message });
            m = m + 1;
        }
        assert forall|n: CallNoticeView| #[trigger] ringing_notice(e@, client_id@, n) implies exists|
            i: int,
        | n0.len() <= i < notices@.len() && notices@[i]@ == n by {
            let to = n->Cancelled_to;
            let j = choose|j: int|
                0 <= j < crate::sets::client_ids(e.notified_clients@).len() && crate::sets::client_ids(
                    e.notified_clients@,
                )[j] == to;
            assert(notices@[n0.len() + j]@ == n);
        }
    } else {
        let message = CallCancelled::new(e.call_id, CallCancelReason::Disconnected);
        notices.push(CallNotice::Cancelled { to: e.caller_id.clone(), cancelled: message });
        assert forall|n: CallNoticeView| #[trigger] ringing_notice(e@, client_id@, n) implies exists|
            i: int,
        | n0.len() <= i < notices@.len() && notices@[i]@ == n by {
            assert(notices@[n0.len() as int]@ == n);
        }
    }
}

/// Appends the notice of the active call `a` ending when `client_id` leaves.
fn push_active_notice(notices: &mut Vec<CallNotice>, a: &ActiveCallEntry, client_id: &ClientId)
    requires
        active_involves(a@, client_id@),
    ensures
        final(notices)@.len() >= old(notices)@.len(),
        forall|i: int| 0 <= i < old(notices)@.len() ==> #[trigger] final(notices)@[i] == old(notices)@[i],
        forall|i: int|
            old(notices)@.len() <= i < final(notices)@.len() ==> active_notice(
                a@,
                client_id@,
                #[trigger] final(notices)@[i]@,
            ),
        forall|n: CallNoticeView|
            #[trigger] active_notice(a@, client_id@, n) ==> exists|i: int|
                old(notices)@.len() <= i < final(notices)@.len() && final(notices)@[i]@ == n,
{
    let ghost n0 = notices@;
    let peer = if a.caller_id == *client_id {
        &a.callee_id
    } else {
        &a.caller_id
    };
    let message = CallEnd::new(a.call_id, peer.clone());
    notices.push(CallNotice::Ended { to: peer.clone(), ended: message });
    assert forall|n: CallNoticeView| #[trigger] active_notice(a@, client_id@, n) implies exists|
        i: int,
    | n0.len() <= i < notices@.len() && notices@[i]@ == n by {
        assert(notices@[n0.len() as int]@ == n);
    }
}

spec fn in_bounds(origin: Seq<int>, i: int, bound: int) -> bool {
    0 <= origin[i] < bound
}

/// Where each of the notices in `notices` comes from: `origin[i]` is the
/// index, below `bound`, of the call whose notice `notices[i]` is.
spec fn traced(
    notices: Seq<CallNotice>,
    origin: Seq<int>,
    bound: int,
    is_notice: spec_fn(int, CallNoticeView) -> bool,
) -> bool {
    &&& origin.len() == notices.len()
    &&& forall|i: int|
        0 <= i < notices.len() ==> #[trigger] in_bounds(origin, i, bound) && is_notice(
            origin[i],
            notices[i]@,
        )
}

/// Every notice of the calls below `bound` is among `notices`.
spec fn complete(
    notices: Seq<CallNotice>,
    bound: int,
    is_notice: spec_fn(int, CallNoticeView) -> bool,
) -> bool {
    forall|j: int, n: CallNoticeView|
        0 <= j < bound && #[trigger] is_notice(j, n) ==> exists|i: int|
            0 <= i < notices.len() && notices[i]@ == n
}

/// Appending the notices of call `j` keeps the notices traced and complete.
proof fn lemma_extend(
    before: Seq<CallNotice>,
    after: Seq<CallNotice>,
    origin: Seq<int>,
    j: int,
    is_notice: spec_fn(int, CallNoticeView) -> bool,
) -> (o: Seq<int>)
    requires
        0 <= j,
        traced(before, origin, j, is_notice),
        complete(before, j, is_notice),
        after.len() >= before.len(),
        forall|i: int| 0 <= i < before.len() ==> #[trigger] after[i] == before[i],
        forall|i: int| before.len() <= i < after.len() ==> #[trigger] is_notice(j, after[i]@),
        forall|n: CallNoticeView|
            #[trigger] is_notice(j, n) ==> exists|i: int|
                before.len() <= i < after.len() && after[i]@ == n,
    ensures
        traced(after, o, j + 1, is_notice),
        complete(after, j + 1, is_notice),
{
    let added = Seq::new((after.len() - before.len()) as nat, |x: int| j);
    let res = origin + added;
    assert forall|i: int| 0 <= i < after.len() implies #[trigger] in_bounds(res, i, j + 1)
        && is_notice(res[i], after[i]@) by {
        if i < before.len() {
            assert(after[i] == before[i]);
            assert(in_bounds(origin, i, j));
            assert(res[i] == origin[i]);
        } else {
            assert(res[i] == added[i - origin.len()]);
            assert(res[i] == j);
        }
    }
    assert forall|jj: int, n: CallNoticeView|
        0 <= jj < j + 1 && #[trigger] is_notice(jj, n) implies exists|i: int|
        0 <= i < after.len() && after[i]@ == n by {
        if jj < j {
            let i = choose|i: int| 0 <= i < before.len() && before[i]@ == n;
            assert(after[i] == before[i]);
        }
    }
    res
}

/// `n` is a notice of one of the aborted ringing calls `aborted` or one of the
/// ended active calls `ended` when `c` leaves.
spec fn from_calls(
    aborted: Seq<RingingCallEntry>,
    ended: Seq<ActiveCallEntry>,
    c: Seq<char>,
    n: CallNoticeView,
) -> bool {
    (exists|j: int| 0 <= j < aborted.len() && ringing_notice(#[trigger] aborted[j]@, c, n)) || (
    exists|j: int| 0 <= j < ended.len() && active_notice(#[trigger] ended[j]@, c, n))
}

/// The notices of the aborted ringing calls `aborted` and the ended active
/// calls `ended` when `client_id` leaves.
fn cleanup_notices(
    aborted: &Vec<RingingCallEntry>,
    ended: &Vec<ActiveCallEntry>,
    client_id: &ClientId,
) -> (r: Vec<CallNotice>)
    requires
        forall|j: int| 0 <= j < aborted@.len() ==> #[trigger] aborted@[j].wf(),
        forall|j: int| 0 <= j < ended@.len() ==> active_involves(#[trigger] ended@[j]@, client_id@),
    ensures
        forall|i: int|
            0 <= i < r@.len() ==> #[trigger] from_calls(aborted@, ended@, client_id@, r@[i]@),
        forall|j: int, n: CallNoticeView|
            0 <= j < aborted@.len() && #[trigger] ringing_notice(aborted@[j]@, client_id@, n)
                ==> exists|i: int| 0 <= i < r@.len() && r@[i]@ == n,
        forall|j: int, n: CallNoticeView|
            0 <= j < ended@.len() && #[trigger] active_notice(ended@[j]@, client_id@, n)
                ==> exists|i: int| 0 <= i < r@.len() && r@[i]@ == n,
{
    let ghost rn = |j: int, n: CallNoticeView| ringing_notice(aborted@[j]@, client_id@, n);
    let ghost an = |j: int, n: CallNoticeView| active_notice(ended@[j]@, client_id@, n);
    let mut notices: Vec<CallNotice> = Vec::new();
    let ghost mut origin: Seq<int> = Seq::empty();
    let mut j: usize = 0;
    while j < aborted.len()
        invariant
            0 <= j <= aborted@.len(),
            forall|jj: int| 0 <= jj < aborted@.len() ==> #[trigger] aborted@[jj].wf(),
            rn == (|j: int, n: CallNoticeView| ringing_notice(aborted@[j]@, client_id@, n)),
            traced(notices@, origin, j as int, rn),
            complete(notices@, j as int, rn),
        decreases aborted@.len() - j,
    {
        let ghost before = notices@;
        push_ringing_notices(&mut notices, &aborted[j], client_id);
        proof {
            origin = lemma_extend(before, notices@, origin, j as int, rn);
        }
        j = j + 1;
    }
    let ghost first = notices@;
    let ghost first_origin = origin;
    let mut part: Vec<CallNotice> = Vec::new();
    let ghost mut origin2: Seq<int> = Seq::empty();
    let mut k: usize = 0;
    while k < ended.len()
        invariant
            0 <= k <= ended@.len(),
            forall|jj: int| 0 <= jj < ended@.len() ==> active_involves(#[trigger] ended@[jj]@, client_id@),
            an == (|j: int, n: CallNoticeView| active_notice(ended@[j]@, client_id@, n)),
            traced(part@, origin2, k as int, an),
            complete(part@, k as int, an),
        decreases ended@.len() - k,
    {
        let ghost before = part@;
        push_active_notice(&mut part, &ended[k], client_id);
        proof {
            origin2 = lemma_extend(before, part@, origin2, k as int, an);
        }
        k = k + 1;
    }
    let ghost second = part@;
    notices.append(&mut part);
    assert(notices@ == first + second);
    assert forall|i: int| 0 <= i < notices@.len() implies #[trigger] from_calls(
        aborted@,
        ended@,
        client_id@,
        notices@[i]@,
    ) by {
        if i < first.len() {
            assert(notices@[i] == first[i]);
            assert(in_bounds(first_origin, i, aborted@.len() as int));
            assert(rn(first_origin[i], first[i]@));
        } else {
            let i2 = i - first.len();
            assert(notices@[i] == second[i2]);
            assert(in_bounds(origin2, i2, ended@.len() as int));
            assert(an(origin2[i2], second[i2]@));
        }
    }
    assert forall|jj: int, n: CallNoticeView|
        0 <= jj < aborted@.len() && #[trigger] ringing_notice(
            aborted@[jj]@,
            client_id@,
            n,
        ) implies exists|i: int| 0 <= i < notices@.len() && notices@[i]@ == n by {
        assert(rn(jj, n));
        let i = choose|i: int| 0 <= i < first.len() && first[i]@ == n;
        assert(notices@[i] == first[i]);
    }
    assert forall|jj: int, n: CallNoticeView|
        0 <= jj < ended@.len() && #[trigger] active_notice(
            ended@[jj]@,
            client_id@,
            n,
        ) implies exists|i: int| 0 <= i < notices@.len() && notices@[i]@ == n by {
        assert(an(jj, n));
        let i = choose|i: int| 0 <= i < second.len() && second[i]@ == n;
        assert(notices@[first.len() + i] == second[i]);
    }
    notices
}

/// A copy of `v`, member by member.
fn clone_clients(v: &Vec<ClientId>) -> (r: Vec<ClientId>)
    ensures
        r@.len() == v@.len(),
        forall|i: int| 0 <= i < v@.len() ==> #[trigger] r@[i]@ == v@[i]@,
        client_set(r@) == client_set(v@),
        clients_distinct(v@) ==> clients_distinct(r@),
{
    let mut r: Vec<ClientId> = Vec::new();
    let mut i: usize = 0;
    while i < v.len()
        invariant
            0 <= i <= v.len(),
            r@.len() == i,
            forall|j: int| 0 <= j < i ==> #[trigger] r@[j]@ == v@[j]@,
        decreases v.len() - i,
    {
        r.push(v[i].clone());
        i = i + 1;
    }
    assert(crate::sets::client_ids(r@) =~= crate::sets::client_ids(v@));
    r
}

} // verus!
