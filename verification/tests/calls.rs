use vacs::calls::manager::{CallManager, CallNotice, CallTerminationOutcome, StartCallError};
use vacs::calls::{CallCancelReason, CallErrorReason, CallId, CallSource, CallTarget};
use vacs::ids::{ClientId, PositionId};
use vacs::metrics::{login_attempt_label, AsMetricLabel, CallAttemptOutcome, LoginFailureReason};

fn client(n: u32) -> ClientId {
    ClientId::from(format!("client{n}").as_str())
}

/// Establishes an active call from `caller` to `callee` and returns its id.
fn establish_call(calls: &mut CallManager, caller: &ClientId, callee: &ClientId) -> CallId {
    let call_id = CallId::new();
    calls
        .start_call_attempt(&call_id, caller, &CallTarget::Client(callee.clone()), &vec![callee.clone()])
        .expect("Failed to start call attempt");
    calls.accept_call(&call_id, callee).expect("Failed to accept call");
    call_id
}

fn ended_to(notices: &[CallNotice]) -> Vec<ClientId> {
    notices
        .iter()
        .filter_map(|n| match n {
            CallNotice::Ended { to, .. } => Some(to.clone()),
            _ => None,
        })
        .collect()
}

#[test]
fn cleanup_client_calls_removes_every_active_call_of_the_client() {
    let mut calls = CallManager::new();
    let (c1, c2, c3) = (client(1), client(2), client(3));

    establish_call(&mut calls, &c1, &c2);
    establish_call(&mut calls, &c1, &c3);
    assert_eq!(calls.active_call_count(), 2);

    let notices = calls.cleanup_client_calls(&c1);

    assert_eq!(calls.active_call_count(), 0, "Disconnecting a client must not leave any of its calls active");
    let told = ended_to(&notices);
    assert!(told.contains(&c2), "Peer of the first call should be told the call ended");
    assert!(told.contains(&c3), "Peer of the second call should be told the call ended");
}

#[test]
fn ending_one_call_keeps_the_clients_other_call_cleanable() {
    let mut calls = CallManager::new();
    let (c1, c2, c3) = (client(1), client(2), client(3));

    let call_1 = establish_call(&mut calls, &c1, &c2);
    establish_call(&mut calls, &c1, &c3);

    calls.end_active_call(&call_1, &c2).expect("Failed to end first call");
    assert_eq!(calls.active_call_count(), 1);

    calls.cleanup_client_calls(&c1);
    assert_eq!(calls.active_call_count(), 0, "Ending one call must not make the client's other call uncleanable");
}

#[test]
fn cleanup_client_calls_is_idempotent() {
    let mut calls = CallManager::new();
    let (c1, c2) = (client(1), client(2));

    establish_call(&mut calls, &c1, &c2);

    calls.cleanup_client_calls(&c1);
    calls.cleanup_client_calls(&c2);
    assert_eq!(calls.active_call_count(), 0);
    assert!(calls.cleanup_client_calls(&c1).is_empty());
}

#[test]
fn caller_with_ringing_call_cannot_start_another() {
    let mut calls = CallManager::new();
    let (c1, c2) = (client(1), client(2));
    let first = CallId::from_u128(1);
    calls.start_call_attempt(&first, &c1, &CallTarget::Client(c2.clone()), &vec![c2.clone()]).unwrap();
    assert!(calls.has_outgoing_call(&c1));
    let second = CallId::from_u128(2);
    assert_eq!(
        calls.start_call_attempt(&second, &c1, &CallTarget::Client(c2.clone()), &vec![c2.clone()]),
        Err(StartCallError::CallerBusy)
    );
    assert!(calls.ringing_call(&second).is_none());
    assert!(calls.ringing_call(&first).is_some());
}

#[test]
fn start_then_end_ringing_call_leaves_nothing() {
    let mut calls = CallManager::new();
    let (c1, c2) = (client(1), client(2));
    let id = CallId::from_u128(7);
    calls.start_call_attempt(&id, &c1, &CallTarget::Client(c2.clone()), &vec![c2.clone()]).unwrap();
    let ringing = calls.end_ringing_call(&id, &c1).unwrap();
    assert_eq!(ringing.notified_clients, vec![c2.clone()]);
    assert!(!calls.has_outgoing_call(&c1));
    assert!(calls.ringing_call(&id).is_none());
    assert!(calls.end_ringing_call(&id, &c1).is_none());
}

#[test]
fn call_fails_when_every_notified_client_rejects_or_errors() {
    let mut calls = CallManager::new();
    let (c1, c2, c3) = (client(1), client(2), client(3));
    let id = CallId::from_u128(9);
    calls
        .start_call_attempt(&id, &c1, &CallTarget::Position(PositionId::from("LOWW_TWR")), &vec![c2.clone(), c3.clone()])
        .unwrap();
    assert!(matches!(calls.reject_call(&id, &c2), CallTerminationOutcome::Continued));
    assert!(matches!(calls.reject_call(&id, &c1), CallTerminationOutcome::ClientNotNotified));
    match calls.call_error(&id, &c3) {
        CallTerminationOutcome::Failed(r) => assert_eq!(r.caller_id, c1),
        other => panic!("unexpected outcome {other:?}"),
    }
    assert!(matches!(calls.reject_call(&id, &c2), CallTerminationOutcome::CallNotFound));
    assert!(!calls.has_outgoing_call(&c1));
}

#[test]
fn accepted_call_cancels_for_other_clients_and_becomes_active() {
    let mut calls = CallManager::new();
    let (c1, c2, c3) = (client(1), client(2), client(3));
    let id = CallId::from_u128(11);
    calls
        .start_call_attempt(&id, &c1, &CallTarget::Position(PositionId::from("LOWW_TWR")), &vec![c2.clone(), c3.clone()])
        .unwrap();
    assert!(calls.accept_call(&id, &c1).is_none());
    let rc = calls.accept_call(&id, &c3).unwrap();
    assert_eq!(rc.caller_id, c1);
    assert!(calls.has_active_call(&id, &c1));
    assert!(calls.has_active_call(&id, &c3));
    assert!(!calls.has_active_call(&id, &c2));
    let active = calls.active_call(&id).unwrap();
    assert_eq!(active.peer(&c1), Some(&c3));
    assert_eq!(active.peer(&c3), Some(&c1));
    assert_eq!(active.peer(&c2), None);
}

#[test]
fn cleanup_of_caller_cancels_ringing_call_for_notified() {
    let mut calls = CallManager::new();
    let (c1, c2) = (client(1), client(2));
    let id = CallId::from_u128(13);
    calls.start_call_attempt(&id, &c1, &CallTarget::Client(c2.clone()), &vec![c2.clone()]).unwrap();
    let notices = calls.cleanup_client_calls(&c1);
    assert_eq!(notices.len(), 1);
    match &notices[0] {
        CallNotice::Cancelled { to, cancelled } => {
            assert_eq!(*to, c2);
            assert_eq!(cancelled.call_id, id);
            assert!(matches!(cancelled.reason, CallCancelReason::CallerCancelled));
        }
        other => panic!("unexpected notice {other:?}"),
    }
    assert!(calls.ringing_call(&id).is_none());
}

#[test]
fn call_id_round_trips_through_its_value_and_bytes() {
    let id = CallId::from_u128(0x0102_0304_0506_0708_090a_0b0c_0d0e_0f10);
    assert_eq!(id.as_u128(), 0x0102_0304_0506_0708_090a_0b0c_0d0e_0f10);
    assert_eq!(id.as_bytes(), [1, 2, 3, 4, 5, 6, 7, 8, 9, 10, 11, 12, 13, 14, 15, 16]);
    let parsed = CallId::parse("01020304-0506-0708-090a-0b0c0d0e0f10").unwrap();
    assert_eq!(parsed, id);
    assert!(CallId::parse("not-a-uuid").is_none());
    assert_ne!(CallId::new(), CallId::new());
}

#[test]
fn metric_labels() {
    assert_eq!(CallAttemptOutcome::Accepted.as_metric_label(), "accepted");
    assert_eq!(CallAttemptOutcome::Error(CallErrorReason::AutoHangup).as_metric_label(), "error_auto_hangup");
    assert_eq!(CallAttemptOutcome::Error(CallErrorReason::Other).as_metric_label(), "error_other");
    assert_eq!(None::<CallAttemptOutcome>.as_metric_label(), "aborted");
    assert_eq!(
        LoginFailureReason::AmbiguousVatsimPosition(vec![PositionId::from("A")]).as_metric_label(),
        "ambiguous_vatsim_position"
    );
    assert_eq!(LoginFailureReason::IncompatibleProtocolVersion.as_metric_label(), "incompatible_protocol_version");
    assert_eq!(login_attempt_label(true), "success");
    assert_eq!(login_attempt_label(false), "failure");
    assert_eq!(vacs::clients::DisconnectReason::Terminated.as_metric_label(), "terminated");
    assert_eq!(None::<vacs::clients::DisconnectReason>.as_metric_label(), "graceful");
}

#[test]
fn fresh_call_ids_are_version_7() {
    let id = CallId::new();
    let bytes = id.as_bytes();
    assert_eq!(bytes[6] >> 4, 7);
    assert_eq!(bytes[8] >> 6, 2);
    assert_eq!((id.as_u128() >> 76) & 0xf, 7);
}

#[test]
fn call_id_text_is_a_hyphenated_uuid() {
    let id = CallId::from_u128(0x0123_4567_89ab_cdef_fedc_ba98_7654_3210);
    assert_eq!(id.to_string(), "01234567-89ab-cdef-fedc-ba9876543210");
    let back = CallId::parse(&id.to_string()).unwrap();
    assert_eq!(back.as_u128(), id.as_u128());
}

#[test]
fn call_source_from_client_alone() {
    let source = CallSource::from(ClientId::from("client1"));
    assert_eq!(source.client_id.as_str(), "client1");
    assert!(source.position_id.is_none());
    assert!(source.station_id.is_none());
}
