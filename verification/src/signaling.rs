//! The server's answers to the call signaling messages of a client: which
//! clients an invite rings, who is told that a call was accepted, rejected,
//! ended or failed, and which call error goes back to the sender. The caller
//! sends the messages; these functions decide them and update the calls.
use crate::calls::manager::{
    active_peer,
    after_start,
    ActiveCallView,
    after_termination,
    ringing_public,
    without_ringing,
    CallManager,
    CallManagerView,
    CallTerminationOutcome,
    RingingCallView,
    TerminationView,
};
use crate::calls::{CallErrorReason, CallId, CallTarget, CallTargetView};
use crate::clients::manager::{ClientManager, ClientManagerView};
use crate::ids::ClientId;
use crate::sets::{client_set, clients_distinct, distinct_clients, remove_client};
use vstd::prelude::*;

verus! {

/// A call error sent back to the client whose message it answers.
#[derive(Debug)]
pub struct CallErrorReply {
    pub call_id: CallId,
    pub reason: CallErrorReason,
    pub message: Option<String>,
}

/// The mathematical content of a [`CallErrorReply`].
pub struct CallErrorReplyView {
    pub call_id: CallId,
    pub reason: CallErrorReason,
    pub message: Option<Seq<char>>,
}

impl View for CallErrorReply {
    type V = CallErrorReplyView;

    open spec fn view(&self) -> CallErrorReplyView {
        CallErrorReplyView {
            call_id: self.call_id,
            reason: self.reason,
            message: match self.message {
                Some(m) => Some(m@),
                None => None,
            },
        }
    }
}

/// The reply for `call_id` with `reason` and no message.
pub open spec fn plain_reply(call_id: CallId, reason: CallErrorReason) -> CallErrorReplyView {
    CallErrorReplyView { call_id, reason, message: None }
}

/// The reply for `call_id` that a message names another client than its
/// sender as the acting one.
pub open spec fn mismatch_reply(call_id: CallId, message: Seq<char>) -> CallErrorReplyView {
    CallErrorReplyView { call_id, reason: CallErrorReason::Other, message: Some(message) }
}

fn reply(call_id: CallId, reason: CallErrorReason) -> (r: CallErrorReply)
    ensures
        r@ == plain_reply(call_id, reason),
{
    CallErrorReply { call_id, reason, message: None }
}

fn mismatch(call_id: CallId, message: &str) -> (r: CallErrorReply)
    ensures
        r@ == mismatch_reply(call_id, message@),
{
    CallErrorReply { call_id, reason: CallErrorReason::Other, message: Some(message.to_owned()) }
}

/// The clients that a call to `target` reaches: the client itself where it
/// is connected, the clients at the position, or those at the position that
/// covers the station.
pub open spec fn target_clients(v: ClientManagerView, target: CallTargetView) -> Set<Seq<char>> {
    match target {
        CallTargetView::Client(id) => if v.clients.dom().contains(id) {
            set![id]
        } else {
            Set::empty()
        },
        CallTargetView::Position(p) => if v.online_positions.dom().contains(p) {
            v.online_positions[p]
        } else {
            Set::empty()
        },
        CallTargetView::Station(s) => if v.online_stations.dom().contains(s)
            && v.online_positions.dom().contains(v.online_stations[s]) {
            v.online_positions[v.online_stations[s]]
        } else {
            Set::empty()
        },
    }
}

/// The clients that `caller` rings by calling `target`: those the target
/// reaches, but the caller itself.
pub fn call_targets(clients: &ClientManager, caller_id: &ClientId, target: &CallTarget) -> (r: Vec<
    ClientId,
>)
    requires
        clients.wf(),
    ensures
        clients_distinct(r@),
        client_set(r@) == target_clients(clients@, target@).remove(caller_id@),
{
    let mut found: Vec<ClientId> = match target {
        CallTarget::Client(id) => {
            let mut v: Vec<ClientId> = Vec::new();
            if clients.is_client_connected(id) {
                v.push(id.clone());
                assert(crate::sets::client_ids(v@) =~= seq![id@]);
                assert(seq![id@].to_set() =~= set![id@]) by {
                    let one = seq![id@];
                    assert(one[0] == id@);
                    assert(one.contains(id@));
                    assert forall|x: Seq<char>| one.contains(x) implies x == id@ by {
                        let k = choose|k: int| 0 <= k < one.len() && one[k] == x;
                        assert(k == 0);
                    }
                }
            } else {
                assert(client_set(v@) =~= Set::<Seq<char>>::empty());
            }
            v
        },
        CallTarget::Position(p) => clients.clients_for_position(p),
        CallTarget::Station(s) => clients.clients_for_station(s),
    };
    assert(client_set(found@) == target_clients(clients@, target@));
    remove_client(&mut found, caller_id);
    found
}

/// The clients that an invite from `sender` to `target` rings.
pub open spec fn invited(cm: ClientManagerView, sender: Seq<char>, target: CallTargetView) -> Set<Seq<char>> {
    target_clients(cm, target).remove(sender)
}

/// Why an invite is refused, if it is: it names another caller than its
/// sender; its target reaches nobody but the sender; the sender has an
/// outgoing call ringing.
pub open spec fn invite_refusal(
    v: CallManagerView,
    cm: ClientManagerView,
    sender: Seq<char>,
    call_id: CallId,
    source: Seq<char>,
    target: CallTargetView,
) -> Option<CallErrorReplyView> {
    if source != sender {
        Some(mismatch_reply(call_id, "Source client ID mismatch"@))
    } else if invited(cm, sender, target) == Set::<Seq<char>>::empty() {
        Some(plain_reply(call_id, CallErrorReason::TargetNotFound))
    } else if v.outgoing.dom().contains(sender) {
        Some(plain_reply(call_id, CallErrorReason::CallActive))
    } else {
        None
    }
}

/// Starts the call `call_id` that `sender` places to `target`, the invite
/// naming `source_client_id` as its caller. Refused, the calls unchanged,
/// when the invite names another caller than its sender, when the target
/// reaches nobody but the sender, and while the sender has an outgoing call
/// ringing; otherwise the call rings at the clients returned, which are to
/// receive the invite.
pub fn handle_call_invite(
    calls: &mut CallManager,
    clients: &ClientManager,
    sender: &ClientId,
    call_id: &CallId,
    source_client_id: &ClientId,
    target: &CallTarget,
) -> (r: Result<Vec<ClientId>, CallErrorReply>)
    requires
        old(calls).wf(),
        clients.wf(),
    ensures
        final(calls).wf(),
        match invite_refusal(old(calls)@, clients@, sender@, *call_id, source_client_id@, target@) {
            Some(e) => (r matches Err(x) && x@ == e) && final(calls)@ == old(calls)@,
            None => (r matches Ok(v) && clients_distinct(v@) && client_set(v@) == invited(
                clients@,
                sender@,
                target@,
            )) && final(calls)@ == after_start(
                old(calls)@,
                *call_id,
                sender@,
                target@,
                invited(clients@, sender@, target@),
            ),
        },
{
    if *source_client_id != *sender {
        return Err(mismatch(*call_id, "Source client ID mismatch"));
    }
    let targets = call_targets(clients, sender, target);
    if targets.len() == 0 {
        assert(client_set(targets@) =~= Set::<Seq<char>>::empty());
        return Err(reply(*call_id, CallErrorReason::TargetNotFound));
    }
    proof {
        assert(client_set(targets@).contains(targets@[0]@)) by {
            assert(crate::sets::client_ids(targets@)[0] == targets@[0]@);
        }
    }
    match calls.start_call_attempt(call_id, sender, target, &targets) {
        Ok(()) => Ok(targets),
        Err(_) => Err(reply(*call_id, CallErrorReason::CallActive)),
    }
}

/// Who hears of an accepted call: the caller receives the acceptance, and
/// the other notified clients learn that it was answered elsewhere.
#[derive(Debug)]
pub struct AcceptRelay {
    pub caller_id: ClientId,
    pub cancelled: Vec<ClientId>,
}

/// `c` was told of the ringing call `id`, and may answer it.
pub open spec fn can_accept(v: CallManagerView, id: CallId, c: Seq<char>) -> bool {
    v.ringing.dom().contains(id) && v.ringing[id].notified.contains(c)
}

/// Every client that an invite rings may accept the call; the caller, which
/// an invite never rings, may not.
pub proof fn lemma_rung_clients_can_accept(
    v: CallManagerView,
    cm: ClientManagerView,
    id: CallId,
    caller: Seq<char>,
    target: CallTargetView,
    c: Seq<char>,
)
    ensures
        invited(cm, caller, target).contains(c) ==> can_accept(
            after_start(v, id, caller, target, invited(cm, caller, target)),
            id,
            c,
        ),
        !can_accept(after_start(v, id, caller, target, invited(cm, caller, target)), id, caller),
{
}

/// `sender` accepts the call `call_id`, the acceptance naming
/// `accepting_client_id`. Refused when it names another client than the
/// sender, and, with a call failure, when the sender was not told of a call
/// ringing under that identifier; otherwise the call becomes active.
pub fn handle_call_accept(
    calls: &mut CallManager,
    sender: &ClientId,
    call_id: &CallId,
    accepting_client_id: &ClientId,
) -> (r: Result<AcceptRelay, CallErrorReply>)
    requires
        old(calls).wf(),
    ensures
        final(calls).wf(),
        accepting_client_id@ != sender@ ==> (r matches Err(e) && e@ == mismatch_reply(
            *call_id,
            "Accepting client ID mismatch"@,
        )) && final(calls)@ == old(calls)@,
        accepting_client_id@ == sender@ && !can_accept(old(calls)@, *call_id, sender@) ==> (r matches Err(e)
            && e@ == plain_reply(*call_id, CallErrorReason::CallFailure)) && final(calls)@ == old(
            calls,
        )@,
        accepting_client_id@ == sender@ && can_accept(old(calls)@, *call_id, sender@) ==> (r matches Ok(relay)
            && relay.caller_id@ == old(calls)@.ringing[*call_id].caller && clients_distinct(
            relay.cancelled@,
        ) && client_set(relay.cancelled@) == old(calls)@.ringing[*call_id].notified.remove(sender@))
            && final(calls)@ == (CallManagerView {
            active: old(calls)@.active.insert(
                *call_id,
                ActiveCallView {
                    call_id: *call_id,
                    caller: old(calls)@.ringing[*call_id].caller,
                    callee: sender@,
                },
            ),
            ..without_ringing(old(calls)@, *call_id)
        }),
{
    if *accepting_client_id != *sender {
        return Err(mismatch(*call_id, "Accepting client ID mismatch"));
    }
    match calls.accept_call(call_id, sender) {
        Some(ringing) => {
            let mut others = distinct_clients(&ringing.notified_clients);
            remove_client(&mut others, sender);
            Ok(AcceptRelay { caller_id: ringing.caller_id, cancelled: others })
        },
        None => Err(reply(*call_id, CallErrorReason::CallFailure)),
    }
}

/// The answer to a rejection of, or a failure on, a ringing call: the call
/// error for the sender where no such call rings, else the caller to tell
/// that every notified client rejected the call or failed, where they all
/// did.
pub open spec fn termination_answer(t: TerminationView, call_id: CallId) -> Result<Option<Seq<char>>, CallErrorReplyView> {
    match t {
        TerminationView::CallNotFound => Err(plain_reply(call_id, CallErrorReason::CallFailure)),
        TerminationView::ClientNotNotified => Ok(None),
        TerminationView::Continued => Ok(None),
        TerminationView::Failed(rc) => Ok(Some(rc.caller)),
    }
}

/// The answer to a termination outcome, as values.
fn answer_of(t: CallTerminationOutcome, call_id: CallId) -> (r: Result<Option<ClientId>, CallErrorReply>)
    ensures
        match termination_answer(t@, call_id) {
            Ok(None) => r matches Ok(None),
            Ok(Some(c)) => r matches Ok(Some(x)) && x@ == c,
            Err(e) => r matches Err(x) && x@ == e,
        },
{
    match t {
        CallTerminationOutcome::CallNotFound => Err(reply(call_id, CallErrorReason::CallFailure)),
        CallTerminationOutcome::ClientNotNotified => Ok(None),
        CallTerminationOutcome::Continued => Ok(None),
        CallTerminationOutcome::Failed(rc) => Ok(Some(rc.caller_id)),
    }
}

/// `sender` rejects the call `call_id`, the rejection naming
/// `rejecting_client_id`. Refused when it names another client than the
/// sender; otherwise recorded, and answered as [`termination_answer`] says:
/// where the caller is returned, it is told that the call was cancelled
/// because every notified client rejected it or failed.
pub fn handle_call_reject(
    calls: &mut CallManager,
    sender: &ClientId,
    call_id: &CallId,
    rejecting_client_id: &ClientId,
) -> (r: Result<Option<ClientId>, CallErrorReply>)
    requires
        old(calls).wf(),
    ensures
        final(calls).wf(),
        rejecting_client_id@ != sender@ ==> (r matches Err(e) && e@ == mismatch_reply(
            *call_id,
            "Rejecting client ID mismatch"@,
        )) && final(calls)@ == old(calls)@,
        rejecting_client_id@ == sender@ ==> final(calls)@ == after_termination(
            old(calls)@,
            *call_id,
            sender@,
            true,
        ).0 && match termination_answer(
            after_termination(old(calls)@, *call_id, sender@, true).1,
            *call_id,
        ) {
            Ok(None) => r matches Ok(None),
            Ok(Some(c)) => r matches Ok(Some(x)) && x@ == c,
            Err(e) => r matches Err(x) && x@ == e,
        },
{
    if *rejecting_client_id != *sender {
        return Err(mismatch(*call_id, "Rejecting client ID mismatch"));
    }
    let t = calls.reject_call(call_id, sender);
    answer_of(t, *call_id)
}

/// `sender` reports that the call `call_id` failed on its side: recorded, and
/// answered as [`termination_answer`] says.
pub fn handle_call_error(calls: &mut CallManager, sender: &ClientId, call_id: &CallId) -> (r: Result<
    Option<ClientId>,
    CallErrorReply,
>)
    requires
        old(calls).wf(),
    ensures
        final(calls).wf(),
        final(calls)@ == after_termination(old(calls)@, *call_id, sender@, false).0,
        match termination_answer(
            after_termination(old(calls)@, *call_id, sender@, false).1,
            *call_id,
        ) {
            Ok(None) => r matches Ok(None),
            Ok(Some(c)) => r matches Ok(Some(x)) && x@ == c,
            Err(e) => r matches Err(x) && x@ == e,
        },
{
    let t = calls.call_error(call_id, sender);
    answer_of(t, *call_id)
}

/// Who hears that a call ended.
#[derive(Debug)]
pub enum EndRelay {
    /// The caller hung up a ringing call: these notified clients learn that
    /// it was cancelled by the caller.
    Cancelled(Vec<ClientId>),
    /// An active call ended: its other party receives the end.
    Ended(ClientId),
}

/// `c` placed the call `id`, which still rings.
pub open spec fn placed_ringing(v: CallManagerView, id: CallId, c: Seq<char>) -> bool {
    v.ringing.dom().contains(id) && v.ringing[id].caller == c
}

/// `c` takes part in the active call `id`.
pub open spec fn in_active(v: CallManagerView, id: CallId, c: Seq<char>) -> bool {
    v.active.dom().contains(id) && active_peer(v.active[id], c) is Some
}

/// `sender` ends the call `call_id`, the message naming `ending_client_id`.
/// Refused when it names another client than the sender. A call that the
/// sender placed and that still rings is cancelled; else an active call that
/// the sender takes part in ends; else there is no such call, which is
/// answered as a target not found.
pub fn handle_call_end(
    calls: &mut CallManager,
    sender: &ClientId,
    call_id: &CallId,
    ending_client_id: &ClientId,
) -> (r: Result<EndRelay, CallErrorReply>)
    requires
        old(calls).wf(),
    ensures
        final(calls).wf(),
        ending_client_id@ != sender@ ==> (r matches Err(e) && e@ == mismatch_reply(
            *call_id,
            "Ending client ID mismatch"@,
        )) && final(calls)@ == old(calls)@,
        ending_client_id@ == sender@ && placed_ringing(old(calls)@, *call_id, sender@) ==> (r matches Ok(
            EndRelay::Cancelled(v),
        ) && clients_distinct(v@) && client_set(v@) == old(calls)@.ringing[*call_id].notified)
            && final(calls)@ == without_ringing(old(calls)@, *call_id),
        ending_client_id@ == sender@ && !placed_ringing(old(calls)@, *call_id, sender@)
            && in_active(old(calls)@, *call_id, sender@) ==> (r matches Ok(EndRelay::Ended(p))
            && Some(p@) == active_peer(old(calls)@.active[*call_id], sender@)) && final(calls)@ == (
        CallManagerView { active: old(calls)@.active.remove(*call_id), ..old(calls)@ }),
        ending_client_id@ == sender@ && !placed_ringing(old(calls)@, *call_id, sender@)
            && !in_active(old(calls)@, *call_id, sender@) ==> (r matches Err(e) && e@
            == plain_reply(*call_id, CallErrorReason::TargetNotFound)) && final(calls)@ == old(
            calls,
        )@,
{
    if *ending_client_id != *sender {
        return Err(mismatch(*call_id, "Ending client ID mismatch"));
    }
    if let Some(ringing) = calls.end_ringing_call(call_id, sender) {
        let notified = distinct_clients(&ringing.notified_clients);
        return Ok(EndRelay::Cancelled(notified));
    }
    match calls.end_active_call(call_id, sender) {
        Some(active) => match active.peer(sender) {
            Some(p) => Ok(EndRelay::Ended(p.clone())),
            None => Err(reply(*call_id, CallErrorReason::TargetNotFound)),
        },
        None => Err(reply(*call_id, CallErrorReason::TargetNotFound)),
    }
}

/// Checks a WebRTC offer, answer or candidate that `sender` sends for the
/// call `call_id`, the message naming `from_client_id` as its sender. Refused
/// when it names another client than the sender, and with a signaling
/// failure unless the sender takes part in that active call; otherwise the
/// message is relayed to its addressee.
pub fn check_webrtc_relay(
    calls: &CallManager,
    sender: &ClientId,
    call_id: &CallId,
    from_client_id: &ClientId,
) -> (r: Result<(), CallErrorReply>)
    requires
        calls.wf(),
    ensures
        from_client_id@ != sender@ ==> (r matches Err(e) && e@ == mismatch_reply(
            *call_id,
            "Source client ID mismatch"@,
        )),
        from_client_id@ == sender@ ==> (r is Ok <==> (calls@.active.dom().contains(*call_id)
            && crate::calls::manager::active_involves(calls@.active[*call_id], sender@))),
        from_client_id@ == sender@ ==> (r matches Err(e) ==> e@ == plain_reply(
            *call_id,
            CallErrorReason::SignalingFailure,
        )),
{
    if *from_client_id != *sender {
        return Err(mismatch(*call_id, "Source client ID mismatch"));
    }
    if !calls.has_active_call(call_id, sender) {
        return Err(reply(*call_id, CallErrorReason::SignalingFailure));
    }
    Ok(())
}

} // verus!
