use vacs::coverage::fir::{FlightInformationRegion, FlightInformationRegionRaw};
use vacs::coverage::position::{Position, PositionRaw};
use vacs::coverage::station::{Station, StationRaw};
use vacs::coverage::{CoverageError, ValidationError, Validator};
use vacs::facility::FacilityType;
use vacs::ids::{FlightInformationRegionId, PositionId, StationId};

fn tower_position(freq: &str) -> PositionRaw {
    PositionRaw {
        id: PositionId::from("LOWW_TWR"),
        prefixes: vec!["LOWW".to_string()],
        frequency: freq.to_string(),
        facility_type: FacilityType::Tower,
        profile_id: None,
    }
}

fn tower_station() -> StationRaw {
    StationRaw { id: StationId::from("LOWW_TWR"), parent_id: None, controlled_by: vec![] }
}

fn station(id: &str, parent: Option<&str>, controlled_by: &[&str]) -> StationRaw {
    StationRaw {
        id: StationId::from(id),
        parent_id: parent.map(StationId::from),
        controlled_by: controlled_by.iter().map(|p| PositionId::from(p)).collect(),
    }
}

fn ids(v: &[&str]) -> Vec<PositionId> {
    v.iter().map(|p| PositionId::from(p)).collect()
}

#[test]
fn station_id_creation() {
    let id = StationId::from("loww_twr");
    assert_eq!(id.as_str(), "LOWW_TWR");
    assert_eq!(id.to_string(), "LOWW_TWR");
    assert!(!id.is_empty());

    let empty = StationId::from("");
    assert!(empty.is_empty());
}

#[test]
fn station_id_equality() {
    let id1 = StationId::from("LOWW_TWR");
    let id2 = StationId::from("loww_twr");
    assert_eq!(id1, id2);
}

#[test]
fn position_id_creation() {
    let id = PositionId::from("loww_twr");
    assert_eq!(id.as_str(), "LOWW_TWR");
    assert_eq!(id.to_string(), "LOWW_TWR");
    assert!(!id.is_empty());

    let empty = PositionId::from("");
    assert!(empty.is_empty());
}

#[test]
fn position_id_equality() {
    let id1 = PositionId::from("LOWW_TWR");
    let id2 = PositionId::from("loww_twr");
    assert_eq!(id1, id2);
}

#[test]
fn fir_id_creation() {
    let id = FlightInformationRegionId::from("lovv");
    assert_eq!(id.as_str(), "LOVV");
    assert_eq!(id.to_string(), "LOVV");
    assert!(!id.is_empty());

    let empty = FlightInformationRegionId::from("");
    assert!(empty.is_empty());
}

#[test]
fn fir_id_equality() {
    let id1 = FlightInformationRegionId::from("LOVV");
    let id2 = FlightInformationRegionId::from("lovv");
    assert_eq!(id1, id2);
}

#[test]
fn fir_raw_valid() {
    let raw = FlightInformationRegionRaw {
        id: FlightInformationRegionId::from("LOVV"),
        stations: vec![tower_station()],
        positions: vec![tower_position("119.400")],
    };
    assert!(raw.validate().is_ok());
}

#[test]
fn fir_raw_invalid_id() {
    let raw = FlightInformationRegionRaw {
        id: FlightInformationRegionId::from(""),
        stations: vec![tower_station()],
        positions: vec![tower_position("119.400")],
    };
    assert!(matches!(
        raw.validate(),
        Err(CoverageError::Validation(ValidationError::MissingField(f))) if f == "id"
    ));
}

#[test]
fn fir_raw_invalid_stations() {
    let raw = FlightInformationRegionRaw {
        id: FlightInformationRegionId::from("LOVV"),
        stations: vec![],
        positions: vec![tower_position("119.400")],
    };
    assert!(matches!(
        raw.validate(),
        Err(CoverageError::Validation(ValidationError::MissingField(f))) if f == "stations"
    ));
}

#[test]
fn fir_raw_invalid_positions() {
    let raw = FlightInformationRegionRaw {
        id: FlightInformationRegionId::from("LOVV"),
        stations: vec![tower_station()],
        positions: vec![],
    };
    assert!(matches!(
        raw.validate(),
        Err(CoverageError::Validation(ValidationError::MissingField(f))) if f == "positions"
    ));
}

#[test]
fn fir_conversion() {
    let raw = FlightInformationRegionRaw {
        id: FlightInformationRegionId::from("LOVV"),
        stations: vec![tower_station()],
        positions: vec![tower_position("119.400")],
    };
    let fir = FlightInformationRegion::from_raw(&raw).unwrap();
    assert_eq!(fir.id.as_str(), "LOVV");
    assert!(fir.stations.contains(&StationId::from("LOWW_TWR")));
    assert!(fir.positions.contains(&PositionId::from("LOWW_TWR")));
}

#[test]
fn fir_equality() {
    let f1 = FlightInformationRegion {
        id: FlightInformationRegionId::from("LOVV"),
        stations: vec![],
        positions: vec![],
    };
    let f2 = FlightInformationRegion {
        id: FlightInformationRegionId::from("LOVV"),
        stations: vec![StationId::from("LOWW_TWR")],
        positions: vec![PositionId::from("LOWW_TWR")],
    };
    assert_eq!(f1, f2);
}

#[test]
fn fir_conversion_lists_each_id_once() {
    let raw = FlightInformationRegionRaw {
        id: FlightInformationRegionId::from("LOVV"),
        stations: vec![tower_station(), tower_station()],
        positions: vec![tower_position("119.400"), tower_position("119.400")],
    };
    let fir = FlightInformationRegion::from_raw(&raw).unwrap();
    assert_eq!(fir.stations.len(), 1);
    assert_eq!(fir.positions.len(), 1);
}

#[test]
fn position_raw_valid() {
    let raw = tower_position("119.400");
    assert!(raw.validate().is_ok());
}

#[test]
fn position_raw_invalid_id() {
    let mut raw = tower_position("119.400");
    raw.id = PositionId::from("");
    assert!(matches!(
        raw.validate(),
        Err(CoverageError::Validation(ValidationError::Empty { field })) if field == "id"
    ));
}

#[test]
fn position_raw_invalid_prefixes() {
    let mut raw = tower_position("119.400");
    raw.prefixes = vec![];
    assert!(matches!(
        raw.validate(),
        Err(CoverageError::Validation(ValidationError::Empty { field })) if field == "prefixes"
    ));

    let mut raw = tower_position("119.400");
    raw.prefixes = vec!["".to_string()];
    assert!(matches!(
        raw.validate(),
        Err(CoverageError::Validation(ValidationError::Empty { field })) if field == "prefixes"
    ));
}

#[test]
fn position_raw_invalid_frequency() {
    let raw = tower_position("");
    assert!(matches!(
        raw.validate(),
        Err(CoverageError::Validation(ValidationError::Empty { field })) if field == "frequency"
    ));

    let bad_freqs = vec!["119.4", "119.40", "119.4000", "119,400", "abc.def", "119.40a"];
    for freq in bad_freqs {
        let raw = tower_position(freq);
        assert!(
            matches!(
                raw.validate(),
                Err(CoverageError::Validation(ValidationError::InvalidFormat { field, .. })) if field == "frequency"
            ),
            "Should fail for frequency: {freq}"
        );
    }
}

#[test]
fn position_raw_invalid_facility_type() {
    let mut raw = tower_position("119.400");
    raw.facility_type = FacilityType::Unknown;
    assert!(matches!(
        raw.validate(),
        Err(CoverageError::Validation(ValidationError::InvalidValue { field, value, .. }))
            if field == "facility_type" && value == "Unknown"
    ));
}

#[test]
fn position_conversion() {
    let raw = tower_position("119.400");
    let pos = Position::from_raw(raw, FlightInformationRegionId::from("LOVV")).unwrap();
    assert_eq!(pos.id.as_str(), "LOWW_TWR");
    assert_eq!(pos.fir_id.as_str(), "LOVV");
}

#[test]
fn position_equality() {
    let p1 = Position {
        id: PositionId::from("LOWW_TWR"),
        prefixes: vec!["LOWW".to_string()],
        frequency: "119.400".to_string(),
        facility_type: FacilityType::Tower,
        fir_id: FlightInformationRegionId::from("LOVV"),
        profile_id: None,
    };
    let p2 = Position {
        id: PositionId::from("LOWW_TWR"),
        prefixes: vec![],
        frequency: "119.000".to_string(),
        facility_type: FacilityType::Ground,
        fir_id: FlightInformationRegionId::from("LOVV"),
        profile_id: None,
    };
    assert_eq!(p1, p2);
}

#[test]
fn station_raw_valid() {
    let raw1 = station("LOWW_TWR", None, &["LOWW_TWR"]);
    assert!(raw1.validate().is_ok());

    let raw2 = station("LOWW_TWR", Some("LOWW_APP"), &["LOWW_TWR"]);
    assert!(raw2.validate().is_ok());
}

#[test]
fn station_raw_invalid_id() {
    let raw = station("", None, &[]);
    assert!(matches!(
        raw.validate(),
        Err(CoverageError::Validation(ValidationError::Empty { field })) if field == "id"
    ));
}

#[test]
fn station_equality() {
    let s1 = Station {
        id: StationId::from("LOWW_TWR"),
        parent_id: None,
        controlled_by: vec![],
        fir_id: FlightInformationRegionId::from("LOVV"),
    };
    let s2 = Station {
        id: StationId::from("LOWW_TWR"),
        parent_id: Some(StationId::from("LOWW_APP")),
        controlled_by: vec![PositionId::from("LOWW_TWR")],
        fir_id: FlightInformationRegionId::from("LOVV"),
    };
    assert_eq!(s1, s2);
}

#[test]
fn resolve_controlled_by_simple() {
    let s = station("LOWW_TWR", None, &["LOWW_TWR", "LOWW_APP"]);
    let all = vec![station("LOWW_TWR", None, &["LOWW_TWR", "LOWW_APP"])];
    assert_eq!(s.resolve_controlled_by(&all), ids(&["LOWW_TWR", "LOWW_APP"]));
}

#[test]
fn resolve_controlled_by_inheritance() {
    let child = station("LOWW_TWR", Some("LOVV_CTR"), &["LOWW_TWR", "LOWW_APP"]);
    let all = vec![
        station("LOVV_CTR", None, &["LOVV_CTR"]),
        station("LOWW_TWR", Some("LOVV_CTR"), &["LOWW_TWR", "LOWW_APP"]),
    ];
    assert_eq!(child.resolve_controlled_by(&all), ids(&["LOWW_TWR", "LOWW_APP", "LOVV_CTR"]));
}

#[test]
fn resolve_controlled_by_complex_chain() {
    let all = vec![
        station("LOVV_CTR", None, &["LOVV_CTR"]),
        station("LOWW_APP", Some("LOVV_CTR"), &["LOWW_APP", "LOWW_B_APP", "LOWW_P_APP"]),
        station("LOWW_TWR", Some("LOWW_APP"), &["LOWW_TWR", "LOWW_E_TWR"]),
        station("LOWW_E_TWR", Some("LOWW_TWR"), &["LOWW_E_TWR", "LOWW_TWR"]),
        station("LOWW_GND", Some("LOWW_E_TWR"), &["LOWW_GND", "LOWW_W_GND"]),
        station("LOWW_DEL", Some("LOWW_GND"), &["LOWW_DEL"]),
    ];
    let leaf = station("LOWW_DEL", Some("LOWW_GND"), &["LOWW_DEL"]);
    assert_eq!(
        leaf.resolve_controlled_by(&all),
        ids(&[
            "LOWW_DEL",
            "LOWW_GND",
            "LOWW_W_GND",
            "LOWW_E_TWR",
            "LOWW_TWR",
            "LOWW_APP",
            "LOWW_B_APP",
            "LOWW_P_APP",
            "LOVV_CTR",
        ])
    );
}

#[test]
fn resolve_controlled_by_unique_positions() {
    let all = vec![
        station("LOWW_GND", None, &["LOWW_GND", "LOWW_W_GND"]),
        station("LOWW_W_GND", Some("LOWW_GND"), &["LOWW_W_GND", "LOWW_GND"]),
    ];
    let child = station("LOWW_W_GND", Some("LOWW_GND"), &["LOWW_W_GND", "LOWW_GND"]);
    assert_eq!(child.resolve_controlled_by(&all), ids(&["LOWW_W_GND", "LOWW_GND"]));
}

#[test]
fn resolve_controlled_by_cycle() {
    let all = vec![station("A", Some("B"), &["POS_A"]), station("B", Some("A"), &["POS_B"])];
    let s1 = station("A", Some("B"), &["POS_A"]);
    assert_eq!(s1.resolve_controlled_by(&all), ids(&["POS_A", "POS_B"]));
}

#[test]
fn resolve_controlled_by_missing_parent() {
    let all = vec![station("LOWW_DEL", Some("LOWW_GND"), &["LOWW_DEL"])];
    let child = station("LOWW_DEL", Some("LOWW_GND"), &["LOWW_DEL"]);
    assert_eq!(child.resolve_controlled_by(&all), ids(&["LOWW_DEL"]));
}

#[test]
fn station_conversion_resolves_coverage() {
    let all = vec![
        station("LOVV_CTR", None, &["LOVV_CTR"]),
        station("LOWW_TWR", Some("LOVV_CTR"), &["LOWW_TWR"]),
    ];
    let s = Station::from_raw(
        station("LOWW_TWR", Some("LOVV_CTR"), &["LOWW_TWR"]),
        FlightInformationRegionId::from("LOVV"),
        &all,
    )
    .unwrap();
    assert_eq!(s.controlled_by, ids(&["LOWW_TWR", "LOVV_CTR"]));
    assert_eq!(s.fir_id.as_str(), "LOVV");
    assert!(matches!(
        Station::from_raw(station("", None, &[]), FlightInformationRegionId::from("LOVV"), &all),
        Err(CoverageError::Validation(ValidationError::Empty { field })) if field == "id"
    ));
}

#[test]
fn position_keeps_each_prefix_once() {
    let mut raw = tower_position("119.400");
    raw.prefixes = vec!["LOWW".to_string(), "LOWX".to_string(), "LOWW".to_string()];
    let pos = Position::from_raw(raw, FlightInformationRegionId::from("LOVV")).unwrap();
    assert_eq!(pos.prefixes, vec!["LOWW".to_string(), "LOWX".to_string()]);
}
