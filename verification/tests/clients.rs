use vacs::clients::manager::ClientManager;
use vacs::clients::{changes_for, ActiveProfile, ClientInfo, DisconnectReason, RelevantStations};
use vacs::coverage::fir::FlightInformationRegionRaw;
use vacs::coverage::network::Network;
use vacs::coverage::position::PositionRaw;
use vacs::coverage::station::StationRaw;
use vacs::facility::{ControllerInfo, FacilityType};
use vacs::ids::{ClientId, FlightInformationRegionId, PositionId, ProfileId, StationId};
use vacs::protocol::StationChange;

fn pos(id: &str) -> PositionId {
    PositionId::from(id)
}

fn station(id: &str) -> StationId {
    StationId::from(id)
}

fn cid(id: &str) -> ClientId {
    ClientId::from(id)
}

fn controller(cid: &str, callsign: &str, freq: &str, ft: FacilityType) -> ControllerInfo {
    ControllerInfo {
        cid: ClientId::from(cid),
        callsign: callsign.to_string(),
        frequency: freq.to_string(),
        facility_type: ft,
    }
}

fn client_info(id: &str, position_id: &str, freq: &str) -> ClientInfo {
    ClientInfo {
        id: ClientId::from(id),
        position_id: Some(PositionId::from(position_id)),
        display_name: id.to_string(),
        frequency: freq.to_string(),
    }
}

fn online_positions(entries: &[&str]) -> Vec<PositionId> {
    entries.iter().map(|id| pos(id)).collect()
}

fn raw_station(id: &str, parent: Option<&str>, controlled_by: &[&str]) -> StationRaw {
    StationRaw {
        id: station(id),
        parent_id: parent.map(station),
        controlled_by: controlled_by.iter().map(|p| pos(p)).collect(),
    }
}

fn raw_position(id: &str, prefix: &str, freq: &str, ft: &str) -> PositionRaw {
    PositionRaw {
        id: pos(id),
        prefixes: vec![prefix.to_string()],
        frequency: freq.to_string(),
        facility_type: FacilityType::from_text(ft),
        profile_id: None,
    }
}

fn create_lovv_network() -> Network {
    let firs = vec![FlightInformationRegionRaw {
        id: FlightInformationRegionId::from("LOVV"),
        stations: vec![
            raw_station("LOWW_APP", None, &["LOWW_APP", "LOVV_CTR"]),
            raw_station("LOWW_TWR", Some("LOWW_APP"), &["LOWW_TWR"]),
            raw_station("LOWW_GND", Some("LOWW_TWR"), &["LOWW_GND"]),
            raw_station("LOWW_DEL", Some("LOWW_GND"), &["LOWW_DEL"]),
        ],
        positions: vec![
            raw_position("LOVV_CTR", "LOVV", "132.600", "CTR"),
            raw_position("LOWW_APP", "LOWW", "134.675", "APP"),
            raw_position("LOWW_TWR", "LOWW", "119.400", "TWR"),
            raw_position("LOWW_GND", "LOWW", "121.600", "GND"),
            raw_position("LOWW_DEL", "LOWW", "122.125", "DEL"),
        ],
    }];
    Network::from_raw_firs(&firs).unwrap()
}

fn listed(manager: &ClientManager, own: &str) -> Vec<String> {
    manager
        .list_stations(&RelevantStations::All, Some(&pos(own)))
        .iter()
        .map(|s| s.id.as_str().to_string())
        .collect()
}

fn sync(manager: &mut ClientManager, controllers: Vec<ControllerInfo>) -> Vec<(ClientId, DisconnectReason)> {
    let mut pending = Vec::new();
    manager.sync_vatsim_state(&controllers, &mut pending, false).disconnected
}

#[test]
fn online_vacs_position_is_visible() {
    let changes = vec![StationChange::Online { station_id: station("LOWW_TWR"), position_id: pos("LOWW_TWR") }];
    let positions = online_positions(&["LOWW_TWR"]);

    let result = ClientManager::client_visible_changes(&changes, &positions);
    assert_eq!(result, changes);
}

#[test]
fn online_vatsim_only_position_is_dropped() {
    let changes = vec![StationChange::Online { station_id: station("LOWW_TWR"), position_id: pos("LOWW_TWR") }];
    let positions = online_positions(&[]);

    let result = ClientManager::client_visible_changes(&changes, &positions);
    assert!(result.is_empty());
}

#[test]
fn handoff_vacs_to_vacs_is_visible() {
    let changes = vec![StationChange::Handoff {
        station_id: station("LOWW_APP"),
        from_position_id: pos("LOVV_CTR"),
        to_position_id: pos("LOWW_APP"),
    }];
    let positions = online_positions(&["LOVV_CTR", "LOWW_APP"]);

    let result = ClientManager::client_visible_changes(&changes, &positions);
    assert_eq!(result, changes);
}

#[test]
fn handoff_vacs_to_vatsim_only_becomes_offline() {
    let changes = vec![StationChange::Handoff {
        station_id: station("LOWW_TWR"),
        from_position_id: pos("LOWW_APP"),
        to_position_id: pos("LOWW_TWR"),
    }];
    let positions = online_positions(&["LOWW_APP"]);

    let result = ClientManager::client_visible_changes(&changes, &positions);
    assert_eq!(result, vec![StationChange::Offline { station_id: station("LOWW_TWR") }]);
}

#[test]
fn handoff_vatsim_only_to_vacs_becomes_online() {
    let changes = vec![StationChange::Handoff {
        station_id: station("LOWW_TWR"),
        from_position_id: pos("LOWW_TWR"),
        to_position_id: pos("LOWW_APP"),
    }];
    let positions = online_positions(&["LOWW_APP"]);

    let result = ClientManager::client_visible_changes(&changes, &positions);
    assert_eq!(
        result,
        vec![StationChange::Online { station_id: station("LOWW_TWR"), position_id: pos("LOWW_APP") }]
    );
}

#[test]
fn handoff_vatsim_only_to_vatsim_only_is_dropped() {
    let changes = vec![StationChange::Handoff {
        station_id: station("LOWW_APP"),
        from_position_id: pos("LOVV_CTR"),
        to_position_id: pos("LOWW_APP"),
    }];
    let positions = online_positions(&[]);

    let result = ClientManager::client_visible_changes(&changes, &positions);
    assert!(result.is_empty());
}

#[test]
fn offline_is_always_visible() {
    let changes = vec![StationChange::Offline { station_id: station("LOWW_TWR") }];
    let positions = online_positions(&[]);

    let result = ClientManager::client_visible_changes(&changes, &positions);
    assert_eq!(result, changes);
}

#[test]
fn vatsim_only_position_removes_station_from_vacs_client() {
    let mut manager = ClientManager::new(create_lovv_network());
    manager.add_client(client_info("client0", "LOWW_APP", "134.675"), ActiveProfile::Custom).unwrap();

    let ids = listed(&manager, "LOWW_APP");
    for s in ["LOWW_APP", "LOWW_TWR", "LOWW_GND", "LOWW_DEL"] {
        assert!(ids.contains(&s.to_string()));
    }

    let disconnected = sync(
        &mut manager,
        vec![
            controller("client0", "LOWW_APP", "134.675", FacilityType::Approach),
            controller("vatsim_client1", "LOWW_TWR", "119.400", FacilityType::Tower),
        ],
    );
    assert!(disconnected.is_empty());

    let ids = listed(&manager, "LOWW_APP");
    assert!(ids.contains(&"LOWW_APP".to_string()));
    assert!(!ids.contains(&"LOWW_TWR".to_string()), "LOWW_TWR should not be listed (VATSIM-only)");
    assert!(!ids.contains(&"LOWW_GND".to_string()));
    assert!(!ids.contains(&"LOWW_DEL".to_string()));
}

#[test]
fn vatsim_only_position_becomes_vacs_when_client_connects() {
    let mut manager = ClientManager::new(create_lovv_network());
    manager.add_client(client_info("client0", "LOVV_CTR", "132.600"), ActiveProfile::Custom).unwrap();
    sync(
        &mut manager,
        vec![
            controller("client0", "LOVV_CTR", "132.600", FacilityType::Enroute),
            controller("vatsim_client1", "LOWW_TWR", "119.400", FacilityType::Tower),
        ],
    );
    assert!(!listed(&manager, "LOVV_CTR").contains(&"LOWW_TWR".to_string()));

    manager.add_client(client_info("client2", "LOWW_TWR", "119.400"), ActiveProfile::Custom).unwrap();
    assert!(
        listed(&manager, "LOVV_CTR").contains(&"LOWW_TWR".to_string()),
        "LOWW_TWR should be listed after vacs client connects"
    );
}

#[test]
fn vacs_client_disconnect_with_vatsim_only_covering_same_position() {
    let mut manager = ClientManager::new(create_lovv_network());
    manager.add_client(client_info("client0", "LOVV_CTR", "132.600"), ActiveProfile::Custom).unwrap();
    manager.add_client(client_info("client2", "LOWW_TWR", "119.400"), ActiveProfile::Custom).unwrap();
    assert!(listed(&manager, "LOVV_CTR").contains(&"LOWW_TWR".to_string()));

    assert!(manager.remove_client(&cid("client2")).is_some());
    sync(
        &mut manager,
        vec![
            controller("client0", "LOVV_CTR", "132.600", FacilityType::Enroute),
            controller("vatsim_client1", "LOWW_TWR", "119.400", FacilityType::Tower),
        ],
    );
    assert!(!listed(&manager, "LOVV_CTR").contains(&"LOWW_TWR".to_string()));
}

#[test]
fn multiple_vatsim_only_positions_not_callable() {
    let mut manager = ClientManager::new(create_lovv_network());
    manager.add_client(client_info("client0", "LOVV_CTR", "132.600"), ActiveProfile::Custom).unwrap();
    sync(
        &mut manager,
        vec![
            controller("client0", "LOVV_CTR", "132.600", FacilityType::Enroute),
            controller("vatsim_client1", "LOWW_TWR", "119.400", FacilityType::Tower),
            controller("vatsim_client2", "LOWW_GND", "121.600", FacilityType::Ground),
        ],
    );
    let ids = listed(&manager, "LOVV_CTR");
    assert!(!ids.contains(&"LOWW_TWR".to_string()));
    assert!(!ids.contains(&"LOWW_GND".to_string()));
    assert!(!ids.contains(&"LOWW_DEL".to_string()));
    assert!(ids.contains(&"LOWW_APP".to_string()));
}

#[test]
fn last_client_disconnect_clears_vatsim_only_state() {
    let mut manager = ClientManager::new(create_lovv_network());
    manager.add_client(client_info("client0", "LOWW_APP", "134.675"), ActiveProfile::Custom).unwrap();
    sync(
        &mut manager,
        vec![
            controller("client0", "LOWW_APP", "134.675", FacilityType::Approach),
            controller("vatsim_client1", "LOWW_TWR", "119.400", FacilityType::Tower),
        ],
    );
    assert!(!manager.vatsim_only_position_ids().is_empty());
    assert!(!manager.online_station_ids().is_empty());
    manager.remove_client(&cid("client0"));
    assert!(
        manager.vatsim_only_position_ids().is_empty(),
        "VATSIM-only positions should be cleared after last client disconnects"
    );
    assert!(manager.online_station_ids().is_empty());
    assert!(manager.is_empty());
    assert!(manager.list_stations(&RelevantStations::All, None).is_empty());
}

#[test]
fn clients_for_station_returns_empty_for_vatsim_only() {
    let mut manager = ClientManager::new(create_lovv_network());
    manager.add_client(client_info("client0", "LOVV_CTR", "132.600"), ActiveProfile::Custom).unwrap();
    sync(
        &mut manager,
        vec![
            controller("client0", "LOVV_CTR", "132.600", FacilityType::Enroute),
            controller("vatsim_client1", "LOWW_TWR", "119.400", FacilityType::Tower),
        ],
    );
    assert!(manager.clients_for_station(&station("LOWW_TWR")).is_empty());
    assert_eq!(manager.clients_for_station(&station("LOWW_APP")), vec![cid("client0")]);
}

#[test]
fn duplicate_client_is_refused() {
    let mut manager = ClientManager::new(create_lovv_network());
    manager.add_client(client_info("client0", "LOVV_CTR", "132.600"), ActiveProfile::Custom).unwrap();
    assert!(manager.add_client(client_info("client0", "LOWW_APP", "134.675"), ActiveProfile::Custom).is_err());
    assert!(manager.is_client_connected(&cid("client0")));
    assert!(!manager.is_client_connected(&cid("client1")));
}

#[test]
fn add_then_remove_restores_empty_manager() {
    let mut manager = ClientManager::new(create_lovv_network());
    let online = manager.add_client(client_info("client0", "LOWW_APP", "134.675"), ActiveProfile::Custom).unwrap();
    assert!(!online.is_empty());
    let offline = manager.remove_client(&cid("client0")).unwrap();
    assert_eq!(offline.len(), online.len());
    assert!(manager.is_empty());
    assert!(manager.list_stations(&RelevantStations::All, None).is_empty());
    assert!(manager.remove_client(&cid("client0")).is_none());
}

#[test]
fn missing_vatsim_connection_disconnects_after_grace_period() {
    let mut manager = ClientManager::new(create_lovv_network());
    manager.add_client(client_info("client0", "LOWW_APP", "134.675"), ActiveProfile::Custom).unwrap();
    let mut pending = Vec::new();
    let first = manager.sync_vatsim_state(&vec![], &mut pending, true);
    assert!(first.disconnected.is_empty());
    assert_eq!(pending, vec![cid("client0")]);
    let second = manager.sync_vatsim_state(&vec![], &mut pending, true);
    assert_eq!(second.disconnected.len(), 1);
    assert_eq!(second.disconnected[0].0, cid("client0"));
    assert!(matches!(second.disconnected[0].1, DisconnectReason::NoActiveVatsimConnection));
    assert!(pending.is_empty());
}

#[test]
fn changes_filtered_by_relevant_stations() {
    let changes = vec![
        StationChange::Offline { station_id: station("LOWW_TWR") },
        StationChange::Offline { station_id: station("LOWW_APP") },
    ];
    assert_eq!(changes_for(&RelevantStations::All, &changes), changes);
    assert!(changes_for(&RelevantStations::NoStations, &changes).is_empty());
    assert_eq!(
        changes_for(&RelevantStations::Subset(vec![station("LOWW_APP")]), &changes),
        vec![StationChange::Offline { station_id: station("LOWW_APP") }]
    );
}

#[test]
fn sync_moves_client_between_positions() {
    let mut manager = ClientManager::new(create_lovv_network());
    manager.add_client(client_info("client0", "LOWW_APP", "134.675"), ActiveProfile::Custom).unwrap();
    manager.add_client(client_info("client1", "LOWW_APP", "134.675"), ActiveProfile::Custom).unwrap();
    let outcome = {
        let mut pending = Vec::new();
        manager.sync_vatsim_state(
            &vec![
                controller("client0", "LOWW_TWR", "119.400", FacilityType::Tower),
                controller("client1", "LOWW_APP", "134.675", FacilityType::Approach),
            ],
            &mut pending,
            false,
        )
    };
    assert!(outcome.disconnected.is_empty());
    assert_eq!(outcome.session_updates.len(), 1);
    assert_eq!(outcome.session_updates[0].client_id, cid("client0"));
    assert_eq!(outcome.session_updates[0].position_id, Some(pos("LOWW_TWR")));
    assert_eq!(manager.clients_for_position(&pos("LOWW_TWR")), vec![cid("client0")]);
    assert_eq!(manager.clients_for_position(&pos("LOWW_APP")), vec![cid("client1")]);
}

#[test]
fn sync_move_takes_the_new_position_profile() {
    let mut twr = raw_position("LOWW_TWR", "LOWW", "119.400", "TWR");
    twr.profile_id = Some(ProfileId::from("LOWW"));
    let firs = vec![FlightInformationRegionRaw {
        id: FlightInformationRegionId::from("LOVV"),
        stations: vec![
            raw_station("LOWW_APP", None, &["LOWW_APP"]),
            raw_station("LOWW_TWR", Some("LOWW_APP"), &["LOWW_TWR"]),
            raw_station("LOWW_GND", Some("LOWW_TWR"), &["LOWW_GND"]),
        ],
        positions: vec![
            raw_position("LOWW_APP", "LOWW", "134.675", "APP"),
            twr,
            raw_position("LOWW_GND", "LOWW", "121.600", "GND"),
        ],
    }];
    let mut manager = ClientManager::new(Network::from_raw_firs(&firs).unwrap());
    manager.add_client(client_info("client0", "LOWW_APP", "134.675"), ActiveProfile::Inactive).unwrap();
    manager.add_client(client_info("client1", "LOWW_APP", "134.675"), ActiveProfile::Custom).unwrap();
    let mut pending = Vec::new();
    let outcome = manager.sync_vatsim_state(
        &vec![
            controller("client0", "LOWW_TWR", "119.400", FacilityType::Tower),
            controller("client1", "LOWW_GND", "121.600", FacilityType::Ground),
        ],
        &mut pending,
        false,
    );
    assert_eq!(outcome.session_updates.len(), 2);
    for update in &outcome.session_updates {
        if update.client_id == cid("client1") {
            assert!(matches!(update.profile, ActiveProfile::Custom));
        } else {
            match &update.profile {
                ActiveProfile::Specific(id) => assert_eq!(id.as_str(), "LOWW"),
                other => panic!("unexpected {:?}", other),
            }
        }
    }
}
