use vacs::coverage::fir::FlightInformationRegionRaw;
use vacs::coverage::network::Network;
use vacs::coverage::position::PositionRaw;
use vacs::coverage::station::StationRaw;
use vacs::coverage::{CoverageError, StructureError};
use vacs::facility::FacilityType;
use vacs::ids::{FlightInformationRegionId, PositionId, StationId};
use vacs::protocol::{PositionChange, StationChange};

/// Builds the raw regions that a coverage directory holds, in memory.
struct FirBuilder {
    name: String,
    stations: Vec<StationRaw>,
    positions: Vec<PositionRaw>,
}

impl FirBuilder {
    fn new(name: &str) -> Self {
        FirBuilder { name: name.to_string(), stations: Vec::new(), positions: Vec::new() }
    }

    fn station(mut self, id: &str, controlled_by: &[&str]) -> Self {
        self.stations.push(StationRaw {
            id: StationId::from(id),
            parent_id: None,
            controlled_by: controlled_by.iter().map(|p| PositionId::from(p)).collect(),
        });
        self
    }

    fn station_with_parent(mut self, id: &str, parent_id: &str, controlled_by: &[&str]) -> Self {
        self.stations.push(StationRaw {
            id: StationId::from(id),
            parent_id: Some(StationId::from(parent_id)),
            controlled_by: controlled_by.iter().map(|p| PositionId::from(p)).collect(),
        });
        self
    }

    fn position(mut self, id: &str, prefixes: &[&str], frequency: &str, facility_type: &str) -> Self {
        self.positions.push(PositionRaw {
            id: PositionId::from(id),
            prefixes: prefixes.iter().map(|p| p.to_string()).collect(),
            frequency: frequency.to_string(),
            facility_type: FacilityType::from_text(facility_type),
            profile_id: None,
        });
        self
    }

    fn create(self, firs: &mut Vec<FlightInformationRegionRaw>) {
        firs.push(FlightInformationRegionRaw {
            id: FlightInformationRegionId::from(self.name.as_str()),
            stations: self.stations,
            positions: self.positions,
        });
    }
}

fn create_minimal_valid_fir(firs: &mut Vec<FlightInformationRegionRaw>, name: &str) {
    FirBuilder::new(name)
        .station(&format!("{name}_CTR"), &[&format!("{name}_CTR")])
        .position(&format!("{name}_CTR"), &[name], "199.998", "Enroute")
        .create(firs);
}

fn create_extended_valid_fir(firs: &mut Vec<FlightInformationRegionRaw>) {
    FirBuilder::new("LOVV")
        .station(
            "LOVV_E2",
            &["LOVV_EU_CTR", "LOVV_NU_CTR", "LOVV_U_CTR", "LOVV_E_CTR", "LOVV_N_CTR", "LOVV_CTR", "LOVV_C_CTR"],
        )
        .station(
            "LOVV_E1",
            &["LOVV_E_CTR", "LOVV_N_CTR", "LOVV_CTR", "LOVV_C_CTR", "LOVV_EU_CTR", "LOVV_NU_CTR", "LOVV_U_CTR"],
        )
        .station(
            "LOWW_APP",
            &[
                "LOWW_APP",
                "LOWW_P_APP",
                "LOWW_N_APP",
                "LOWW_M_APP",
                "LOVV_L_CTR",
                "LOVV_E_CTR",
                "LOVV_N_CTR",
                "LOVV_CTR",
                "LOVV_C_CTR",
                "LOVV_EU_CTR",
                "LOVV_NU_CTR",
            ],
        )
        .station_with_parent("LOWW_TWR", "LOWW_APP", &["LOWW_TWR", "LOWW_E_TWR"])
        .station_with_parent("LOWW_E_TWR", "LOWW_TWR", &["LOWW_E_TWR"])
        .station_with_parent("LOWW_GND", "LOWW_TWR", &["LOWW_GND", "LOWW_W_GND"])
        .station_with_parent("LOWW_W_GND", "LOWW_GND", &["LOWW_W_GND"])
        .station_with_parent("LOWW_DEL", "LOWW_GND", &["LOWW_DEL"])
        .position("LOVV_E_CTR", &["LOVV"], "134.440", "CTR")
        .position("LOVV_CTR", &["LOVV"], "132.600", "CTR")
        .position("LOWW_APP", &["LOWW"], "134.675", "APP")
        .position("LOWW_TWR", &["LOWW"], "119.400", "TWR")
        .position("LOWW_E_TWR", &["LOWW"], "123.800", "TWR")
        .position("LOWW_GND", &["LOWW"], "121.600", "GND")
        .position("LOWW_W_GND", &["LOWW"], "121.775", "GND")
        .position("LOWW_DEL", &["LOWW"], "122.125", "DEL")
        .create(firs);
}

fn load(firs: &Vec<FlightInformationRegionRaw>) -> Network {
    Network::from_raw_firs(firs).unwrap()
}

fn position_ids(v: &[&str]) -> Vec<PositionId> {
    v.iter().map(|p| PositionId::from(p)).collect()
}

fn station_ids(v: &[&str]) -> Vec<StationId> {
    v.iter().map(|s| StationId::from(s)).collect()
}

fn has_fir(network: &Network, id: &str) -> bool {
    network.firs().iter().any(|f| f.id == FlightInformationRegionId::from(id))
}

fn changes(v: &[(&str, Option<&str>, Option<&str>)]) -> Vec<StationChange> {
    v.iter().map(|c| StationChange::from(*c)).collect()
}

fn is_duplicate(e: &CoverageError, what: &str) -> bool {
    matches!(e, CoverageError::Structure(StructureError::Duplicate { entity, .. }) if entity == what)
}

fn controlling(network: &Network, station: &str, online: &[&str]) -> Option<String> {
    network
        .controlling_position(&StationId::from(station), &position_ids(online))
        .map(|p| p.id.as_str().to_string())
}

fn covered_ids(network: &Network, own: Option<&str>, online: &[&str]) -> (Vec<StationId>, Vec<StationId>) {
    let own = own.map(PositionId::from);
    let covered = network.covered_stations(own.as_ref(), &position_ids(online));
    let all = covered.iter().map(|c| c.station.id.clone()).collect();
    let selfc = covered.iter().filter(|c| c.is_self_controlled).map(|c| c.station.id.clone()).collect();
    (all, selfc)
}

#[test]
fn load_from_dir_valid_single() {
    let mut firs = Vec::new();
    create_minimal_valid_fir(&mut firs, "LOVV");

    let network = load(&firs);
    assert_eq!(network.firs().len(), 1);
    assert!(has_fir(&network, "LOVV"));
    assert_eq!(network.stations().len(), 1);
    assert_eq!(network.positions().len(), 1);
}

#[test]
fn load_from_dir_valid_multiple() {
    let mut firs = Vec::new();
    create_minimal_valid_fir(&mut firs, "LOVV");
    create_minimal_valid_fir(&mut firs, "EDMM");

    let network = load(&firs);
    assert_eq!(network.firs().len(), 2);
    assert!(has_fir(&network, "LOVV"));
    assert!(has_fir(&network, "EDMM"));
    assert_eq!(network.stations().len(), 2);
    assert_eq!(network.positions().len(), 2);
}

#[test]
fn load_from_dir_duplicate_fir_id() {
    let mut firs = Vec::new();
    create_minimal_valid_fir(&mut firs, "LOVV");
    create_minimal_valid_fir(&mut firs, "lovv");

    let errors = Network::from_raw_firs(&firs).unwrap_err();
    assert_eq!(errors.len(), 1);
    assert!(is_duplicate(&errors[0], "FIR"));
}

#[test]
fn load_from_dir_duplicate_station_id_same_fir() {
    let mut firs = Vec::new();
    FirBuilder::new("LOVV")
        .station("LOWW_TWR", &["LOWW_TWR"])
        .station("LOWW_TWR", &["LOWW_TWR"])
        .position("LOWW_TWR", &["LOWW"], "119.400", "Tower")
        .create(&mut firs);

    let errors = Network::from_raw_firs(&firs).unwrap_err();
    assert!(!errors.is_empty());
    assert!(errors.iter().any(|e| is_duplicate(e, "Station")));
}

#[test]
fn load_from_dir_duplicate_station_id_different_fir() {
    let mut firs = Vec::new();
    FirBuilder::new("LOVV")
        .station("LOWW_TWR", &["LOWW_TWR"])
        .position("LOWW_TWR", &["LOWW"], "119.400", "Tower")
        .create(&mut firs);
    FirBuilder::new("EDMM")
        .station("LOWW_TWR", &["EDDM_S_TWR"])
        .position("EDDM_S_TWR", &["EDDM"], "120.505", "Tower")
        .create(&mut firs);

    let errors = Network::from_raw_firs(&firs).unwrap_err();
    assert!(!errors.is_empty());
    assert!(errors.iter().any(|e| is_duplicate(e, "Station")));
}

#[test]
fn load_from_dir_duplicate_position_id_same_fir() {
    let mut firs = Vec::new();
    FirBuilder::new("LOVV")
        .station("LOWW_TWR", &["LOWW_TWR"])
        .position("LOWW_TWR", &["LOWW"], "119.400", "Tower")
        .position("LOWW_TWR", &["LOWW"], "119.400", "Tower")
        .create(&mut firs);

    let errors = Network::from_raw_firs(&firs).unwrap_err();
    assert!(!errors.is_empty());
    assert!(errors.iter().any(|e| is_duplicate(e, "Position")));
}

#[test]
fn load_from_dir_duplicate_position_id_different_fir() {
    let mut firs = Vec::new();
    FirBuilder::new("LOVV")
        .station("LOWW_TWR", &["LOWW_TWR"])
        .position("LOWW_TWR", &["LOWW"], "119.400", "Tower")
        .create(&mut firs);
    FirBuilder::new("EDMM")
        .station("EDDM_S_TWR", &["EDDM_S_TWR"])
        .position("LOWW_TWR", &["LOWW"], "119.400", "Tower")
        .create(&mut firs);

    let errors = Network::from_raw_firs(&firs).unwrap_err();
    assert!(!errors.is_empty());
    assert!(errors.iter().any(|e| is_duplicate(e, "Position")));
}

#[test]
fn load_from_dir_empty_coverage() {
    let mut firs = Vec::new();
    FirBuilder::new("LOVV")
        .station("LOWW_TWR", &[])
        .position("LOWW_TWR", &["LOWW"], "119.400", "Tower")
        .create(&mut firs);

    let errors = Network::from_raw_firs(&firs).unwrap_err();
    assert_eq!(errors.len(), 1);
    assert!(matches!(
        &errors[0],
        CoverageError::Structure(StructureError::EmptyCoverage(station)) if station == "LOWW_TWR"
    ));
}

#[test]
fn duplicate_station_in_one_region_is_reported_by_id() {
    let mut firs = Vec::new();
    FirBuilder::new("FIR2")
        .station("A", &["A"])
        .station("A", &["A"])
        .position("B", &["B"], "199.998", "Center")
        .create(&mut firs);

    let errors = Network::from_raw_firs(&firs).unwrap_err();
    assert!(errors.iter().any(|e| matches!(
        e,
        CoverageError::Structure(StructureError::Duplicate { entity, id }) if entity == "Station" && id == "A"
    )));
}

#[test]
fn invalid_region_is_reported_as_load_failure() {
    let mut firs = Vec::new();
    FirBuilder::new("LOVV").position("LOWW_TWR", &["LOWW"], "119.400", "Tower").create(&mut firs);

    let errors = Network::from_raw_firs(&firs).unwrap_err();
    assert_eq!(errors.len(), 1);
    assert!(matches!(
        &errors[0],
        CoverageError::Structure(StructureError::Load { entity, id, .. }) if entity == "FIR" && id == "LOVV"
    ));
}

#[test]
fn network_lists_stations_and_positions_sorted() {
    let mut firs = Vec::new();
    create_extended_valid_fir(&mut firs);
    let network = load(&firs);
    let stations: Vec<&str> = network.stations().iter().map(|s| s.id.as_str()).collect();
    let mut sorted = stations.clone();
    sorted.sort();
    assert_eq!(stations, sorted);
    let positions: Vec<&str> = network.positions().iter().map(|p| p.id.as_str()).collect();
    let mut sorted = positions.clone();
    sorted.sort();
    assert_eq!(positions, sorted);
}

#[test]
fn find_positions_callsign_match() {
    let mut firs = Vec::new();
    create_minimal_valid_fir(&mut firs, "LOVV");
    create_minimal_valid_fir(&mut firs, "EDMM");
    let network = load(&firs);

    let positions = network.find_positions("LOVV_CTR", "199.998", FacilityType::Enroute);
    assert_eq!(positions.len(), 1);
    assert_eq!(positions[0].id.as_str(), "LOVV_CTR");
}

#[test]
fn find_positions_relief_callsign_match() {
    let mut firs = Vec::new();
    create_minimal_valid_fir(&mut firs, "LOVV");
    create_minimal_valid_fir(&mut firs, "EDMM");
    let network = load(&firs);

    let positions = network.find_positions("LOVV__CTR", "199.998", FacilityType::Enroute);
    assert_eq!(positions.len(), 1);
    assert_eq!(positions[0].id.as_str(), "LOVV_CTR");
}

#[test]
fn find_positions_prefix_match() {
    let mut firs = Vec::new();
    FirBuilder::new("ENOR")
        .station("ENCN_TWR", &["ENCN_TWR"])
        .station("ENDU_TWR", &["ENDU_TWR"])
        .station("ENAL_TWR", &["ENAL_TWR"])
        .station("ENBO_TWR", &["ENBO_TWR"])
        .station("ENKR_TWR", &["ENKR_TWR"])
        .position("ENKR_TWR", &["ENKR"], "118.105", "TWR")
        .position("ENCN_TWR", &["ENCN"], "118.105", "TWR")
        .position("ENAL_TWR", &["ENAL"], "118.105", "TWR")
        .position("ENBO_TWR", &["ENBO"], "118.105", "TWR")
        .position("ENDU_TWR", &["ENDU"], "118.105", "TWR")
        .create(&mut firs);
    FirBuilder::new("EBBU")
        .station("ELLX_TWR", &["ELLX_TWR"])
        .position("ELLX_TWR", &["ELLX"], "118.105", "TWR")
        .create(&mut firs);
    let network = load(&firs);

    let positions = network.find_positions("ENBO_X_TWR", "118.105", FacilityType::Tower);
    assert_eq!(positions.len(), 1);
    assert_eq!(positions[0].id.as_str(), "ENBO_TWR");
}

#[test]
fn find_positions_different_frequency() {
    let mut firs = Vec::new();
    create_minimal_valid_fir(&mut firs, "LOVV");
    create_minimal_valid_fir(&mut firs, "EDMM");
    let network = load(&firs);

    let positions = network.find_positions("LOVV_CTR", "121.500", FacilityType::Enroute);
    assert!(positions.is_empty());
}

#[test]
fn find_positions_different_facility_type() {
    let mut firs = Vec::new();
    create_minimal_valid_fir(&mut firs, "LOVV");
    create_minimal_valid_fir(&mut firs, "EDMM");
    let network = load(&firs);

    let positions = network.find_positions("LOVV_CTR", "199.998", FacilityType::TrafficFlow);
    assert!(positions.is_empty());
}

#[test]
fn find_positions_different_prefixes() {
    let mut firs = Vec::new();
    create_minimal_valid_fir(&mut firs, "EDMM");
    let network = load(&firs);

    let positions = network.find_positions("LOVV_CTR", "199.998", FacilityType::Enroute);
    assert_eq!(positions.len(), 0);
}

#[test]
fn find_positions_multiple_matches() {
    let mut firs = Vec::new();
    FirBuilder::new("LOVV")
        .station("LOWI_E_APP", &["LOWI_E_APP"])
        .station("LOWI_S_APP", &["LOWI_S_APP"])
        .position("LOWI_S_APP", &["LOWI"], "128.975", "APP")
        .position("LOWI_E_APP", &["LOWI"], "128.975", "Approach")
        .create(&mut firs);
    let network = load(&firs);

    let positions = network.find_positions("LOWI_X_APP", "128.975", FacilityType::Approach);
    assert_eq!(positions.len(), 2);
    assert_eq!(positions[0].id.as_str(), "LOWI_E_APP");
    assert_eq!(positions[1].id.as_str(), "LOWI_S_APP");
}

#[test]
fn find_positions_callsign_match_identical_frequency() {
    let mut firs = Vec::new();
    FirBuilder::new("LOVV")
        .station("LOWI_E_APP", &["LOWI_E_APP"])
        .station("LOWI_S_APP", &["LOWI_S_APP"])
        .position("LOWI_S_APP", &["LOWI"], "128.975", "APP")
        .position("LOWI_E_APP", &["LOWI"], "128.975", "Approach")
        .create(&mut firs);
    let network = load(&firs);

    let positions = network.find_positions("LOWI_S_APP", "128.975", FacilityType::Approach);
    assert_eq!(positions.len(), 1);
    assert_eq!(positions[0].id.as_str(), "LOWI_S_APP");
}

#[test]
fn controlling_position_found() {
    let mut firs = Vec::new();
    create_minimal_valid_fir(&mut firs, "LOVV");
    let network = load(&firs);

    assert_eq!(controlling(&network, "LOVV_CTR", &["LOVV_CTR"]).as_deref(), Some("LOVV_CTR"));
}

#[test]
fn controlling_position_multiple_covering() {
    let mut firs = Vec::new();
    create_extended_valid_fir(&mut firs);
    let network = load(&firs);
    let st = "LOWW_DEL";

    assert_eq!(controlling(&network, st, &["LOVV_CTR"]).as_deref(), Some("LOVV_CTR"));
    assert_eq!(controlling(&network, st, &["LOVV_CTR", "LOVV_E_CTR"]).as_deref(), Some("LOVV_E_CTR"));
    assert_eq!(
        controlling(&network, st, &["LOVV_CTR", "LOVV_E_CTR", "LOWW_DEL"]).as_deref(),
        Some("LOWW_DEL")
    );
    assert_eq!(
        controlling(&network, st, &["LOVV_CTR", "LOVV_E_CTR", "LOWW_W_GND"]).as_deref(),
        Some("LOWW_W_GND")
    );
    assert_eq!(
        controlling(&network, st, &["LOVV_CTR", "LOVV_E_CTR", "LOWW_W_GND", "LOWW_GND"]).as_deref(),
        Some("LOWW_GND")
    );
    assert_eq!(
        controlling(&network, st, &["LOVV_CTR", "LOVV_E_CTR", "LOWW_APP"]).as_deref(),
        Some("LOWW_APP")
    );
    assert_eq!(controlling(&network, st, &["LOWW_APP"]).as_deref(), Some("LOWW_APP"));
    assert_eq!(controlling(&network, st, &[]), None);
    assert_eq!(controlling(&network, st, &["EDMM_RDG_CTR"]), None);
}

#[test]
fn controlling_position_none() {
    let mut firs = Vec::new();
    create_minimal_valid_fir(&mut firs, "LOVV");
    let network = load(&firs);

    assert_eq!(controlling(&network, "LOVV_CTR", &[]), None);
}

#[test]
fn controlling_position_unknown() {
    let mut firs = Vec::new();
    create_minimal_valid_fir(&mut firs, "LOVV");
    let network = load(&firs);

    assert_eq!(controlling(&network, "EDMM_RDG_CTR", &["LOVV_CTR"]), None);
}

#[test]
fn covered_stations_basic() {
    let mut firs = Vec::new();
    create_minimal_valid_fir(&mut firs, "LOVV");
    let network = load(&firs);

    let covered = network.covered_stations(None, &position_ids(&["LOVV_CTR"]));
    assert_eq!(covered.len(), 1);
    assert_eq!(covered[0].station.id.as_str(), "LOVV_CTR");
    assert!(!covered[0].is_self_controlled);
}

#[test]
fn covered_stations_complex() {
    let mut firs = Vec::new();
    create_extended_valid_fir(&mut firs);
    let network = load(&firs);

    let (ids, _) = covered_ids(&network, None, &["LOVV_CTR", "LOWW_APP", "LOWW_DEL", "LOWW_W_GND", "EDMM_RDG_CTR"]);
    assert_eq!(
        ids,
        station_ids(&[
            "LOVV_E1",
            "LOVV_E2",
            "LOWW_APP",
            "LOWW_DEL",
            "LOWW_E_TWR",
            "LOWW_GND",
            "LOWW_TWR",
            "LOWW_W_GND"
        ])
    );

    let (ids, _) = covered_ids(&network, None, &["LOWW_APP", "LOWW_DEL", "LOWW_W_GND", "EDMM_RDG_CTR"]);
    assert_eq!(
        ids,
        station_ids(&["LOWW_APP", "LOWW_DEL", "LOWW_E_TWR", "LOWW_GND", "LOWW_TWR", "LOWW_W_GND"])
    );

    let (ids, _) = covered_ids(&network, None, &["LOWW_DEL", "LOWW_W_GND", "EDMM_RDG_CTR"]);
    assert_eq!(ids, station_ids(&["LOWW_DEL", "LOWW_GND", "LOWW_W_GND"]));

    let (ids, _) = covered_ids(&network, None, &["LOWW_W_GND", "EDMM_RDG_CTR"]);
    assert_eq!(ids, station_ids(&["LOWW_DEL", "LOWW_GND", "LOWW_W_GND"]));

    let (ids, _) = covered_ids(&network, None, &["LOWW_DEL", "EDMM_RDG_CTR"]);
    assert_eq!(ids, station_ids(&["LOWW_DEL"]));

    let (ids, _) = covered_ids(&network, None, &["EDMM_RDG_CTR"]);
    assert!(ids.is_empty());
}

#[test]
fn covered_stations_self_controlled() {
    let mut firs = Vec::new();
    create_minimal_valid_fir(&mut firs, "LOVV");
    let network = load(&firs);

    let own = PositionId::from("LOVV_CTR");
    let covered = network.covered_stations(Some(&own), &position_ids(&["LOVV_CTR"]));
    assert_eq!(covered.len(), 1);
    assert_eq!(covered[0].station.id.as_str(), "LOVV_CTR");
    assert!(covered[0].is_self_controlled);

    let own = PositionId::from("LOWW_DEL");
    let covered = network.covered_stations(Some(&own), &position_ids(&["LOVV_CTR"]));
    assert_eq!(covered.len(), 1);
    assert_eq!(covered[0].station.id.as_str(), "LOVV_CTR");
    assert!(!covered[0].is_self_controlled);
}

#[test]
fn covered_stations_self_controlled_complex() {
    let mut firs = Vec::new();
    create_extended_valid_fir(&mut firs);
    let network = load(&firs);
    let expected_ids = station_ids(&[
        "LOVV_E1",
        "LOVV_E2",
        "LOWW_APP",
        "LOWW_DEL",
        "LOWW_E_TWR",
        "LOWW_GND",
        "LOWW_TWR",
        "LOWW_W_GND",
    ]);

    let (ids, selfc) = covered_ids(
        &network,
        Some("LOWW_APP"),
        &["LOVV_CTR", "LOWW_APP", "LOWW_DEL", "LOWW_W_GND", "EDMM_RDG_CTR"],
    );
    let expected_self = station_ids(&["LOWW_APP", "LOWW_E_TWR", "LOWW_TWR"]);
    assert_eq!(ids, expected_ids);
    assert_ne!(ids, expected_self);
    assert_eq!(selfc, expected_self);

    let (ids, selfc) =
        covered_ids(&network, Some("LOWW_APP"), &["LOVV_CTR", "LOWW_APP", "LOWW_W_GND", "EDMM_RDG_CTR"]);
    assert_eq!(ids, expected_ids);
    assert_ne!(ids, expected_self);
    assert_eq!(selfc, expected_self);

    let (ids, selfc) = covered_ids(&network, Some("LOWW_APP"), &["LOVV_CTR", "LOWW_APP", "EDMM_RDG_CTR"]);
    let expected_self =
        station_ids(&["LOWW_APP", "LOWW_DEL", "LOWW_E_TWR", "LOWW_GND", "LOWW_TWR", "LOWW_W_GND"]);
    assert_eq!(ids, expected_ids);
    assert_ne!(ids, expected_self);
    assert_eq!(selfc, expected_self);
}

#[test]
fn coverage_changes_coming_online() {
    let mut firs = Vec::new();
    create_extended_valid_fir(&mut firs);
    let network = load(&firs);

    let got = network.coverage_changes(&PositionId::from("LOVV_CTR"), PositionChange::Connected, &vec![]);
    let expected = changes(&[
        ("LOVV_E1", None, Some("LOVV_CTR")),
        ("LOVV_E2", None, Some("LOVV_CTR")),
        ("LOWW_APP", None, Some("LOVV_CTR")),
        ("LOWW_DEL", None, Some("LOVV_CTR")),
        ("LOWW_E_TWR", None, Some("LOVV_CTR")),
        ("LOWW_GND", None, Some("LOVV_CTR")),
        ("LOWW_TWR", None, Some("LOVV_CTR")),
        ("LOWW_W_GND", None, Some("LOVV_CTR")),
    ]);
    assert_eq!(got, expected);
}

#[test]
fn coverage_changes_going_offline() {
    let mut firs = Vec::new();
    create_extended_valid_fir(&mut firs);
    let network = load(&firs);

    let got = network.coverage_changes(
        &PositionId::from("LOVV_CTR"),
        PositionChange::Disconnected,
        &position_ids(&["LOVV_CTR"]),
    );
    let expected = changes(&[
        ("LOVV_E1", Some("LOVV_CTR"), None),
        ("LOVV_E2", Some("LOVV_CTR"), None),
        ("LOWW_APP", Some("LOVV_CTR"), None),
        ("LOWW_DEL", Some("LOVV_CTR"), None),
        ("LOWW_E_TWR", Some("LOVV_CTR"), None),
        ("LOWW_GND", Some("LOVV_CTR"), None),
        ("LOWW_TWR", Some("LOVV_CTR"), None),
        ("LOWW_W_GND", Some("LOVV_CTR"), None),
    ]);
    assert_eq!(got, expected);
}

#[test]
fn coverage_changes_complex() {
    let mut firs = Vec::new();
    create_extended_valid_fir(&mut firs);
    let network = load(&firs);
    let pid = PositionId::from;

    let got = network.coverage_changes(&pid("LOVV_CTR"), PositionChange::Connected, &vec![]);
    assert_eq!(
        got,
        changes(&[
            ("LOVV_E1", None, Some("LOVV_CTR")),
            ("LOVV_E2", None, Some("LOVV_CTR")),
            ("LOWW_APP", None, Some("LOVV_CTR")),
            ("LOWW_DEL", None, Some("LOVV_CTR")),
            ("LOWW_E_TWR", None, Some("LOVV_CTR")),
            ("LOWW_GND", None, Some("LOVV_CTR")),
            ("LOWW_TWR", None, Some("LOVV_CTR")),
            ("LOWW_W_GND", None, Some("LOVV_CTR")),
        ])
    );

    let online = position_ids(&["LOVV_CTR"]);
    let got = network.coverage_changes(&pid("LOWW_DEL"), PositionChange::Connected, &online);
    assert_eq!(got, changes(&[("LOWW_DEL", Some("LOVV_CTR"), Some("LOWW_DEL"))]));

    let online = position_ids(&["LOVV_CTR", "LOWW_DEL"]);
    let got = network.coverage_changes(&pid("LOWW_DEL"), PositionChange::Connected, &online);
    assert!(got.is_empty());

    let got = network.coverage_changes(&pid("LOWW_GND"), PositionChange::Connected, &online);
    assert_eq!(
        got,
        changes(&[
            ("LOWW_GND", Some("LOVV_CTR"), Some("LOWW_GND")),
            ("LOWW_W_GND", Some("LOVV_CTR"), Some("LOWW_GND")),
        ])
    );

    let online = position_ids(&["LOVV_CTR", "LOWW_DEL", "LOWW_GND"]);
    let got = network.coverage_changes(&pid("LOWW_W_GND"), PositionChange::Connected, &online);
    assert_eq!(got, changes(&[("LOWW_W_GND", Some("LOWW_GND"), Some("LOWW_W_GND"))]));

    let online = position_ids(&["LOVV_CTR", "LOWW_DEL", "LOWW_GND", "LOWW_W_GND"]);
    let got = network.coverage_changes(&pid("LOWW_DEL"), PositionChange::Disconnected, &online);
    assert_eq!(got, changes(&[("LOWW_DEL", Some("LOWW_DEL"), Some("LOWW_GND"))]));

    let online = position_ids(&["LOVV_CTR", "LOWW_GND", "LOWW_W_GND"]);
    let got = network.coverage_changes(&pid("LOWW_GND"), PositionChange::Disconnected, &online);
    assert_eq!(
        got,
        changes(&[
            ("LOWW_DEL", Some("LOWW_GND"), Some("LOWW_W_GND")),
            ("LOWW_GND", Some("LOWW_GND"), Some("LOWW_W_GND")),
        ])
    );

    let online = position_ids(&["LOVV_CTR", "LOWW_W_GND"]);
    let got = network.coverage_changes(&pid("LOVV_CTR"), PositionChange::Disconnected, &online);
    assert_eq!(
        got,
        changes(&[
            ("LOVV_E1", Some("LOVV_CTR"), None),
            ("LOVV_E2", Some("LOVV_CTR"), None),
            ("LOWW_APP", Some("LOVV_CTR"), None),
            ("LOWW_E_TWR", Some("LOVV_CTR"), None),
            ("LOWW_TWR", Some("LOVV_CTR"), None),
        ])
    );

    let online = position_ids(&["LOWW_W_GND"]);
    let got = network.coverage_changes(&pid("LOVV_CTR"), PositionChange::Disconnected, &online);
    assert!(got.is_empty());

    let got = network.coverage_changes(&pid("EDMM_RDG_CTR"), PositionChange::Connected, &online);
    assert!(got.is_empty());

    let got = network.coverage_changes(&pid("EDMM_RDG_CTR"), PositionChange::Disconnected, &online);
    assert!(got.is_empty());
}

#[test]
fn coverage_diff_matches_single_connect() {
    let mut firs = Vec::new();
    create_extended_valid_fir(&mut firs);
    let network = load(&firs);
    let before = position_ids(&["LOVV_CTR"]);
    let after = position_ids(&["LOVV_CTR", "LOWW_DEL"]);
    assert_eq!(
        network.coverage_diff(&before, &after),
        changes(&[("LOWW_DEL", Some("LOVV_CTR"), Some("LOWW_DEL"))])
    );
    assert!(network.coverage_diff(&after, &after).is_empty());
}

#[test]
fn network_position_lookup() {
    let mut firs = Vec::new();
    create_extended_valid_fir(&mut firs);
    let network = load(&firs);
    assert!(network.has_position(&PositionId::from("loww_twr")));
    assert!(!network.has_position(&PositionId::from("EDMM_RDG_CTR")));
    assert_eq!(network.get_position(&PositionId::from("LOWW_GND")).unwrap().frequency, "121.600");
    assert!(network.get_position(&PositionId::from("LOWW_X")).is_none());
    assert!(Network::new().positions().is_empty());
}

/// The change that undoes `c`.
fn reversed(c: &StationChange) -> StationChange {
    match c {
        StationChange::Online { station_id, .. } => StationChange::Offline { station_id: station_id.clone() },
        StationChange::Handoff { station_id, from_position_id, to_position_id } => StationChange::Handoff {
            station_id: station_id.clone(),
            from_position_id: to_position_id.clone(),
            to_position_id: from_position_id.clone(),
        },
        StationChange::Offline { station_id } => StationChange::Offline { station_id: station_id.clone() },
    }
}

fn kind(c: &StationChange) -> u8 {
    match c {
        StationChange::Online { .. } => 0,
        StationChange::Handoff { .. } => 1,
        StationChange::Offline { .. } => 2,
    }
}

#[test]
fn disconnect_undoes_connect() {
    let mut firs = Vec::new();
    create_extended_valid_fir(&mut firs);
    let network = load(&firs);
    for (p, online) in [("LOVV_CTR", vec![]), ("LOWW_APP", vec!["LOVV_CTR"]), ("LOWW_TWR", vec!["LOVV_CTR", "LOWW_APP"])] {
        let before = position_ids(&online);
        let mut with_p = before.clone();
        with_p.push(PositionId::from(p));
        let up = network.coverage_changes(&PositionId::from(p), PositionChange::Connected, &before);
        let down = network.coverage_changes(&PositionId::from(p), PositionChange::Disconnected, &with_p);
        assert!(up.iter().all(|c| kind(c) != 2));
        let mut expected: Vec<StationChange> = up.iter().filter(|c| kind(c) == 1).map(reversed).collect();
        expected.extend(up.iter().filter(|c| kind(c) == 0).map(reversed));
        assert_eq!(down, expected);
    }
}

#[test]
fn network_lists_and_results_are_sorted() {
    let mut firs = Vec::new();
    create_extended_valid_fir(&mut firs);
    let network = load(&firs);
    let sids: Vec<String> = network.stations().iter().map(|s| s.id.as_str().to_string()).collect();
    assert!(sids.windows(2).all(|w| w[0] < w[1]));
    let pids: Vec<String> = network.positions().iter().map(|p| p.id.as_str().to_string()).collect();
    assert!(pids.windows(2).all(|w| w[0] < w[1]));
    let covered = network.covered_stations(None, &position_ids(&["LOVV_CTR"]));
    let cids: Vec<String> = covered.iter().map(|c| c.station.id.as_str().to_string()).collect();
    assert!(!cids.is_empty());
    assert!(cids.windows(2).all(|w| w[0] < w[1]));
    let fir = &network.firs()[0];
    assert_eq!(fir.id.as_str(), "LOVV");
    assert_eq!(fir.stations.len(), firs[0].stations.len());
    assert_eq!(fir.positions.len(), firs[0].positions.len());
}
