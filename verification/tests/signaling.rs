use vacs::calls::manager::CallManager;
use vacs::calls::{CallErrorReason, CallId, CallTarget};
use vacs::clients::manager::ClientManager;
use vacs::clients::{ActiveProfile, ClientInfo};
use vacs::coverage::fir::FlightInformationRegionRaw;
use vacs::coverage::network::Network;
use vacs::coverage::position::PositionRaw;
use vacs::coverage::station::StationRaw;
use vacs::facility::{ControllerInfo, FacilityType};
use vacs::ids::{ClientId, FlightInformationRegionId, PositionId, ProfileId, StationId};
use vacs::login::{login_without_vatsim, ws_token_key};
use vacs::metrics::LoginFailureReason;
use vacs::signaling::{
    call_targets, check_webrtc_relay, handle_call_accept, handle_call_end, handle_call_error,
    handle_call_invite, handle_call_reject, EndRelay,
};

fn cid(id: &str) -> ClientId {
    ClientId::from(id)
}

fn position(id: &str, prefix: &str, freq: &str, ft: FacilityType, profile: Option<&str>) -> PositionRaw {
    PositionRaw {
        id: PositionId::from(id),
        prefixes: vec![prefix.to_string()],
        frequency: freq.to_string(),
        facility_type: ft,
        profile_id: profile.map(ProfileId::from),
    }
}

fn network() -> Network {
    let firs = vec![FlightInformationRegionRaw {
        id: FlightInformationRegionId::from("LOVV"),
        stations: vec![
            StationRaw {
                id: StationId::from("LOWW_APP"),
                parent_id: None,
                controlled_by: vec![PositionId::from("LOWW_APP"), PositionId::from("LOVV_CTR")],
            },
            StationRaw {
                id: StationId::from("LOWW_TWR"),
                parent_id: Some(StationId::from("LOWW_APP")),
                controlled_by: vec![PositionId::from("LOWW_TWR")],
            },
        ],
        positions: vec![
            position("LOVV_CTR", "LOVV", "132.600", FacilityType::Enroute, Some("LOVV")),
            position("LOWW_APP", "LOWW", "134.675", FacilityType::Approach, None),
            position("LOWW_TWR", "LOWW", "119.400", FacilityType::Tower, None),
            position("LOWW_E_TWR", "LOWW", "119.400", FacilityType::Tower, None),
        ],
    }];
    Network::from_raw_firs(&firs).unwrap()
}

fn info(id: &str, position: &str) -> ClientInfo {
    ClientInfo {
        id: cid(id),
        position_id: Some(PositionId::from(position)),
        display_name: id.to_string(),
        frequency: "".to_string(),
    }
}

fn controller(id: &str, callsign: &str, freq: &str, ft: FacilityType) -> ControllerInfo {
    ControllerInfo { cid: cid(id), callsign: callsign.to_string(), frequency: freq.to_string(), facility_type: ft }
}

/// Three clients: two at LOWW_TWR, one at LOVV_CTR.
fn manager() -> ClientManager {
    let mut m = ClientManager::new(network());
    m.add_client(info("twr1", "LOWW_TWR"), ActiveProfile::Custom).unwrap();
    m.add_client(info("twr2", "LOWW_TWR"), ActiveProfile::Custom).unwrap();
    m.add_client(info("ctr", "LOVV_CTR"), ActiveProfile::Custom).unwrap();
    m
}

fn sorted(mut v: Vec<ClientId>) -> Vec<String> {
    let mut s: Vec<String> = v.drain(..).map(|c| c.as_str().to_string()).collect();
    s.sort();
    s
}

#[test]
fn call_targets_exclude_the_caller() {
    let m = manager();
    let to_position = call_targets(&m, &cid("twr1"), &CallTarget::Position(PositionId::from("LOWW_TWR")));
    assert_eq!(sorted(to_position), vec!["twr2"]);
    let to_station = call_targets(&m, &cid("ctr"), &CallTarget::Station(StationId::from("LOWW_TWR")));
    assert_eq!(sorted(to_station), vec!["twr1", "twr2"]);
    assert!(call_targets(&m, &cid("ctr"), &CallTarget::Client(cid("nobody"))).is_empty());
    assert_eq!(sorted(call_targets(&m, &cid("ctr"), &CallTarget::Client(cid("twr1")))), vec!["twr1"]);
}

#[test]
fn invite_refusals() {
    let m = manager();
    let mut calls = CallManager::new();
    let id = CallId::from_u128(1);

    let e = handle_call_invite(&mut calls, &m, &cid("ctr"), &id, &cid("twr1"), &CallTarget::Client(cid("twr1")))
        .unwrap_err();
    assert_eq!(e.reason, CallErrorReason::Other);
    assert_eq!(e.message.as_deref(), Some("Source client ID mismatch"));

    let e = handle_call_invite(&mut calls, &m, &cid("ctr"), &id, &cid("ctr"), &CallTarget::Client(cid("ctr")))
        .unwrap_err();
    assert_eq!(e.reason, CallErrorReason::TargetNotFound);
    assert!(e.message.is_none());
    assert_eq!(e.call_id, id);

    let rung = handle_call_invite(&mut calls, &m, &cid("ctr"), &id, &cid("ctr"), &CallTarget::Position(PositionId::from("LOWW_TWR")))
        .unwrap();
    assert_eq!(sorted(rung), vec!["twr1", "twr2"]);
    let e = handle_call_invite(
        &mut calls,
        &m,
        &cid("ctr"),
        &CallId::from_u128(2),
        &cid("ctr"),
        &CallTarget::Client(cid("twr1")),
    )
    .unwrap_err();
    assert_eq!(e.reason, CallErrorReason::CallActive);
}

#[test]
fn accept_tells_caller_and_cancels_for_others() {
    let m = manager();
    let mut calls = CallManager::new();
    let id = CallId::from_u128(3);
    handle_call_invite(&mut calls, &m, &cid("ctr"), &id, &cid("ctr"), &CallTarget::Position(PositionId::from("LOWW_TWR")))
        .unwrap();

    let e = handle_call_accept(&mut calls, &cid("twr1"), &id, &cid("twr2")).unwrap_err();
    assert_eq!(e.message.as_deref(), Some("Accepting client ID mismatch"));
    let e = handle_call_accept(&mut calls, &cid("ctr"), &id, &cid("ctr")).unwrap_err();
    assert_eq!(e.reason, CallErrorReason::CallFailure);

    let relay = handle_call_accept(&mut calls, &cid("twr1"), &id, &cid("twr1")).unwrap();
    assert_eq!(relay.caller_id, cid("ctr"));
    assert_eq!(sorted(relay.cancelled), vec!["twr2"]);
    assert!(calls.has_active_call(&id, &cid("ctr")));

    assert!(check_webrtc_relay(&calls, &cid("twr1"), &id, &cid("twr1")).is_ok());
    let e = check_webrtc_relay(&calls, &cid("twr2"), &id, &cid("twr2")).unwrap_err();
    assert_eq!(e.reason, CallErrorReason::SignalingFailure);
    let e = check_webrtc_relay(&calls, &cid("twr2"), &id, &cid("twr1")).unwrap_err();
    assert_eq!(e.message.as_deref(), Some("Source client ID mismatch"));

    match handle_call_end(&mut calls, &cid("twr1"), &id, &cid("twr1")).unwrap() {
        EndRelay::Ended(peer) => assert_eq!(peer, cid("ctr")),
        other => panic!("unexpected relay {other:?}"),
    }
    let e = handle_call_end(&mut calls, &cid("twr1"), &id, &cid("twr1")).unwrap_err();
    assert_eq!(e.reason, CallErrorReason::TargetNotFound);
}

#[test]
fn rejections_by_all_notified_cancel_for_caller() {
    let m = manager();
    let mut calls = CallManager::new();
    let id = CallId::from_u128(4);
    handle_call_invite(&mut calls, &m, &cid("ctr"), &id, &cid("ctr"), &CallTarget::Position(PositionId::from("LOWW_TWR")))
        .unwrap();

    let e = handle_call_reject(&mut calls, &cid("twr1"), &id, &cid("twr2")).unwrap_err();
    assert_eq!(e.message.as_deref(), Some("Rejecting client ID mismatch"));
    assert!(handle_call_reject(&mut calls, &cid("twr1"), &id, &cid("twr1")).unwrap().is_none());
    assert_eq!(handle_call_error(&mut calls, &cid("twr2"), &id).unwrap(), Some(cid("ctr")));
    let e = handle_call_error(&mut calls, &cid("twr2"), &id).unwrap_err();
    assert_eq!(e.reason, CallErrorReason::CallFailure);
}

#[test]
fn caller_hanging_up_cancels_for_notified() {
    let m = manager();
    let mut calls = CallManager::new();
    let id = CallId::from_u128(5);
    handle_call_invite(&mut calls, &m, &cid("ctr"), &id, &cid("ctr"), &CallTarget::Station(StationId::from("LOWW_TWR")))
        .unwrap();
    let e = handle_call_end(&mut calls, &cid("ctr"), &id, &cid("twr1")).unwrap_err();
    assert_eq!(e.message.as_deref(), Some("Ending client ID mismatch"));
    match handle_call_end(&mut calls, &cid("ctr"), &id, &cid("ctr")).unwrap() {
        EndRelay::Cancelled(v) => assert_eq!(sorted(v), vec!["twr1", "twr2"]),
        other => panic!("unexpected relay {other:?}"),
    }
    assert!(!calls.has_outgoing_call(&cid("ctr")));
}

#[test]
fn login_without_vatsim_uses_the_identifier() {
    let (info, profile) = login_without_vatsim(cid("1234567"));
    assert_eq!(info.id, cid("1234567"));
    assert_eq!(info.display_name, "1234567");
    assert_eq!(info.frequency, "");
    assert!(info.position_id.is_none());
    assert!(matches!(profile, ActiveProfile::Inactive));
    assert_eq!(ws_token_key("abc"), "ws.token.abc");
}

#[test]
fn login_resolution() {
    let m = ClientManager::new(network());

    assert!(matches!(
        m.resolve_login(cid("1"), None, None, false),
        Err(LoginFailureReason::NoActiveVatsimConnection)
    ));
    assert!(matches!(
        m.resolve_login(cid("1"), Some(controller("1", "LOVV_CTR", "132.600", FacilityType::Unknown)), None, false),
        Err(LoginFailureReason::NoActiveVatsimConnection)
    ));

    let (info, profile) = m
        .resolve_login(cid("1"), Some(controller("1", "LOVV_CTR", "132.600", FacilityType::Enroute)), None, false)
        .unwrap();
    assert_eq!(info.position_id, Some(PositionId::from("LOVV_CTR")));
    assert_eq!(info.display_name, "LOVV_CTR");
    assert_eq!(info.frequency, "132.600");
    assert!(matches!(profile, ActiveProfile::Specific(p) if p == ProfileId::from("LOVV")));

    let (_, profile) = m
        .resolve_login(cid("1"), Some(controller("1", "LOVV_CTR", "132.600", FacilityType::Enroute)), None, true)
        .unwrap();
    assert!(matches!(profile, ActiveProfile::Custom));

    let (info, profile) = m
        .resolve_login(cid("2"), Some(controller("2", "EDDM_TWR", "118.000", FacilityType::Tower)), None, false)
        .unwrap();
    assert!(info.position_id.is_none());
    assert!(matches!(profile, ActiveProfile::Inactive));

    match m.resolve_login(cid("3"), Some(controller("3", "LOWW_X_TWR", "119.400", FacilityType::Tower)), None, false) {
        Err(LoginFailureReason::AmbiguousVatsimPosition(ids)) => {
            assert_eq!(ids, vec![PositionId::from("LOWW_E_TWR"), PositionId::from("LOWW_TWR")])
        }
        other => panic!("unexpected {other:?}"),
    }
    let selected = PositionId::from("LOWW_TWR");
    let (info, _) = m
        .resolve_login(
            cid("3"),
            Some(controller("3", "LOWW_X_TWR", "119.400", FacilityType::Tower)),
            Some(&selected),
            false,
        )
        .unwrap();
    assert_eq!(info.position_id, Some(selected));
    let wrong = PositionId::from("LOWW_APP");
    assert!(matches!(
        m.resolve_login(cid("3"), Some(controller("3", "LOWW_X_TWR", "119.400", FacilityType::Tower)), Some(&wrong), false),
        Err(LoginFailureReason::InvalidVatsimPosition)
    ));
}
