use vacs::facility::{Error, FacilityType};
use vacs::ice::{cloudflare_turn_url, CloudflareIceConfig, IceConfig, IceServer, StunOnlyProvider};
use vacs::ids::StationId;
use vacs::profile::{
    ClientGroupMode, ClientPage, ClientPageConfig, DirectAccessKey, DirectAccessPage, FrequencyDisplayMode,
    GeoPageButton, ProfileType, Tab,
};
use vacs::coverage::profile_raw::{
    pages_station_ids, validate_page_references, validate_tabs, DirectAccessKeyRaw, DirectAccessPageRaw, TabRaw,
};
use vacs::coverage::geo::ProfileTypeRaw;
use vacs::coverage::{CoverageError, ValidationError, Validator};
use vacs::ratelimit::{LimiterPlan, Policy, RateLimitersConfig};
use vacs::release::BundleType;
use vacs::clients::{relevant_stations, ActiveProfile, DisconnectReason, RelevantStations};
use vacs::ids::ProfileId;
use vacs::login::check_protocol_version;
use vacs::ids::PositionId;
use vacs::metrics::LoginFailureReason;
use vacs::protocol::{termination_reason, LoginFailure, Terminated, TerminationReason};
use vacs::webrtc::{is_cgnat_ipv4, IntoRtc, Peer, ReceiverStart, RtcConfiguration, RtcIceServer, WebrtcError};

fn server(urls: &[&str], auth: Option<(&str, &str)>) -> IceServer {
    let s = IceServer::new(urls.iter().map(|u| u.to_string()).collect());
    match auth {
        Some((u, c)) => s.with_auth(u.to_string(), c.to_string()),
        None => s,
    }
}

#[test]
fn ice_server_keeps_turn_credentials() {
    let server = server(&["turn:turn.example.org:3478"], Some(("user", "secret")));
    let rtc: RtcIceServer = server.into_rtc();
    assert_eq!(rtc.urls, vec!["turn:turn.example.org:3478".to_owned()]);
    assert_eq!(rtc.username, "user");
    assert_eq!(rtc.credential, "secret");
}

#[test]
fn ice_server_without_credentials_maps_to_empty_strings() {
    let server = server(&["stun:stun.example.org:3478"], None);
    let rtc: RtcIceServer = server.into_rtc();
    assert_eq!(rtc.username, "");
    assert_eq!(rtc.credential, "");
}

#[test]
fn ice_config_maps_every_server_in_order() {
    let config = IceConfig {
        ice_servers: vec![
            server(&["stun:stun.example.org:3478"], None),
            server(&["turn:turn.example.org:3478", "turn:turn.example.org:5349?transport=tcp"], Some(("user", "secret"))),
        ],
        expires_at: None,
    };
    let rtc: RtcConfiguration = config.into_rtc();
    assert_eq!(rtc.ice_servers.len(), 2);
    assert_eq!(rtc.ice_servers[0].urls, vec!["stun:stun.example.org:3478".to_owned()]);
    assert_eq!(rtc.ice_servers[1].urls.len(), 2);
    assert_eq!(rtc.ice_servers[1].credential, "secret");
}

#[test]
fn detects_cgnat_addresses() {
    assert!(is_cgnat_ipv4([100, 64, 0, 1]));
    assert!(is_cgnat_ipv4([100, 96, 12, 34]));
    assert!(is_cgnat_ipv4([100, 127, 255, 255]));
    assert!(!is_cgnat_ipv4([100, 63, 255, 255]));
    assert!(!is_cgnat_ipv4([100, 128, 0, 0]));
    assert!(!is_cgnat_ipv4([192, 168, 1, 1]));
}

#[test]
fn start_twice_reports_call_active() {
    let mut peer = Peer::new();
    assert_eq!(peer.start(), Ok(ReceiverStart::Create));
    assert_eq!(peer.start(), Err(WebrtcError::CallActive));
}

#[test]
fn pause_stops_sending_but_keeps_receiving() {
    let mut peer = Peer::new();
    peer.start().expect("failed to start peer");
    let plan = peer.pause();
    assert!(plan.shutdown_sender && plan.pause_receiver);
    assert!(!peer.has_sender, "pause must stop the sender");
    assert!(peer.has_receiver, "pause must keep the receiver");
}

#[test]
fn start_after_pause_resumes_the_call() {
    let mut peer = Peer::new();
    peer.start().expect("failed to start peer");
    peer.pause();
    assert_eq!(peer.start().expect("failed to resume peer after pause"), ReceiverStart::Resume);
    assert!(peer.has_sender, "resume must restore the sender");
}

#[test]
fn stop_clears_sender_and_receiver() {
    let mut peer = Peer::new();
    peer.start().expect("failed to start peer");
    let plan = peer.stop();
    assert!(plan.stop_sender && plan.shutdown_receiver);
    assert!(!peer.has_sender, "stop must drop the sender");
    assert!(!peer.has_receiver, "stop must drop the receiver");
    let again = peer.stop();
    assert!(!again.stop_sender && !again.shutdown_receiver);
}

#[test]
fn ice_defaults_and_providers() {
    let config = IceConfig::default();
    assert!(config.is_default());
    assert_eq!(config.ice_servers.len(), 1);
    assert_eq!(
        config.ice_servers[0].urls,
        vec!["stun:stun.cloudflare.com:3478".to_string(), "stun:stun.cloudflare.com:53".to_string()]
    );
    assert!(!IceConfig::from_url("stun:other:3478".to_string()).is_default());
    assert!(StunOnlyProvider::default().ice_config().is_default());
    let custom = StunOnlyProvider::new(vec!["stun:a:1".to_string()]).ice_config();
    assert_eq!(custom.ice_servers[0].urls, vec!["stun:a:1".to_string()]);
    let cf = CloudflareIceConfig { ice_servers: vec![server(&["turn:x"], Some(("u", "c")))] };
    let c = cf.into_ice_config(1234);
    assert_eq!(c.expires_at, Some(1234));
    assert!(!c.is_default());
    assert_eq!(
        cloudflare_turn_url("KEY"),
        "https://rtc.live.cloudflare.com/v1/turn/keys/KEY/credentials/generate-ice-servers"
    );
}

#[test]
fn facility_types_parse_from_callsigns() {
    assert_eq!(FacilityType::parse("loww_twr").unwrap(), FacilityType::Tower);
    assert_eq!(FacilityType::parse("LOVV_CTR").unwrap(), FacilityType::Enroute);
    assert_eq!(FacilityType::parse("Center").unwrap(), FacilityType::Enroute);
    assert_eq!(FacilityType::parse("LOWW_W_GND").unwrap(), FacilityType::Ground);
    assert_eq!(FacilityType::parse("flowmanagementposition").unwrap(), FacilityType::TrafficFlow);
    assert!(matches!(FacilityType::parse("LOWW_OBS"), Err(Error::UnknownFacilityType(s)) if s == "OBS"));
    assert_eq!(FacilityType::from_text("nonsense"), FacilityType::Unknown);
    assert_eq!(FacilityType::from_vatsim_facility(4), FacilityType::Tower);
    assert_eq!(FacilityType::from_vatsim_facility(0), FacilityType::Unknown);
    assert!(matches!(FacilityType::try_from_u8(42), Err(Error::UnknownFacilityType(s)) if s == "42"));
    assert_eq!(FacilityType::try_from_u8(1).unwrap(), FacilityType::FlightServiceStation);
}

#[test]
fn facility_suffix_reads_back() {
    for f in [
        FacilityType::Ramp,
        FacilityType::Delivery,
        FacilityType::Ground,
        FacilityType::Tower,
        FacilityType::Approach,
        FacilityType::Departure,
        FacilityType::Enroute,
        FacilityType::FlightServiceStation,
        FacilityType::Radio,
        FacilityType::TrafficFlow,
    ] {
        assert_eq!(FacilityType::parse(f.as_str()).unwrap(), f);
    }
    assert!(FacilityType::parse(FacilityType::Unknown.as_str()).is_err());
}

#[test]
fn bundle_types() {
    assert_eq!(BundleType::parse(" AppImage ").unwrap(), BundleType::AppImage);
    assert_eq!(BundleType::parse("NSIS").unwrap(), BundleType::Nsis);
    assert_eq!(BundleType::parse("dmg").unwrap_err(), "unknown bundle type dmg");
    assert_eq!(BundleType::default(), BundleType::Unknown);
    for b in [BundleType::Unknown, BundleType::AppImage, BundleType::Deb, BundleType::Rpm, BundleType::App, BundleType::Msi, BundleType::Nsis] {
        assert_eq!(BundleType::parse(b.as_str()).unwrap(), b);
    }
}

#[test]
fn rate_limit_plan() {
    let config = RateLimitersConfig::default();
    let plan = LimiterPlan::from_config(&config);
    assert_eq!(plan.call_invite, Some((10, 3)));
    assert_eq!(plan.call_invite_per_minute, Some(20));
    assert_eq!(plan.failed_auth, None);
    assert_eq!(plan.failed_auth_per_minute, None);

    let disabled = RateLimitersConfig { enabled: false, ..config };
    let plan = LimiterPlan::from_config(&disabled);
    assert_eq!(plan.call_invite, None);
    assert_eq!(plan.call_invite_per_minute, None);

    let zero = Policy::new(0, 2);
    assert_eq!(zero.quota_period(), 1);
    assert!(!zero.disabled().enabled);
    let d = Policy::default();
    assert_eq!((d.per_seconds, d.burst, d.enabled), (10, 3, true));
}

fn key(label: &str, station: Option<&str>) -> DirectAccessKey {
    DirectAccessKey { label: vec![label.to_string()], station_id: station.map(StationId::from) }
}

fn page(keys: Vec<DirectAccessKey>) -> DirectAccessPage {
    DirectAccessPage { keys, rows: Some(1), columns: None }
}

#[test]
fn profile_relevant_stations() {
    let geo = ProfileType::Geo(vec![
        GeoPageButton { label: vec!["B1".to_string()], x: 10, y: 10, size: 10, page: page(vec![key("K1", Some("S1"))]) },
        GeoPageButton {
            label: vec!["B2".to_string()],
            x: 20,
            y: 10,
            size: 10,
            page: page(vec![key("K2", Some("S2")), key("K3", Some("S1")), key("K4", None)]),
        },
    ]);
    let mut ids: Vec<String> = geo.relevant_station_ids().iter().map(|s| s.as_str().to_string()).collect();
    ids.sort();
    assert_eq!(ids, vec!["S1", "S2"]);
}

#[test]
fn validate_references() {
    let stations = vec![StationId::from("S1"), StationId::from("S2")];
    let ok = ProfileType::Tabbed(vec![Tab { label: "T".to_string(), page: page(vec![key("K1", Some("S1"))]) }]);
    assert!(ok.validate_references(&stations).is_ok());
    let missing = ProfileType::Tabbed(vec![Tab {
        label: "T".to_string(),
        page: page(vec![key("K0", None), key("K3", Some("MISSING"))]),
    }]);
    assert!(matches!(
        missing.validate_references(&stations),
        Err(CoverageError::Validation(ValidationError::MissingReference { field, ref_id }))
            if field == "station_id" && ref_id == "MISSING"
    ));
}

#[test]
fn client_page_rows_and_defaults() {
    let config = ClientPageConfig::default();
    assert_eq!(config.priority, vec!["*_FMP", "*_CTR", "*_APP", "*_TWR", "*_GND"]);
    assert_eq!(config.frequencies, FrequencyDisplayMode::ShowAll);
    assert_eq!(config.grouping, ClientGroupMode::FirAndIcao);
    assert!(ClientPage { config: ClientPageConfig::default(), rows: 1 }.validate().is_ok());
    assert!(matches!(
        ClientPage { config, rows: 0 }.validate(),
        Err(CoverageError::Validation(ValidationError::OutOfRange { field, .. })) if field == "rows"
    ));
}

fn raw_page(rows: u8) -> DirectAccessPageRaw {
    DirectAccessPageRaw { keys: vec![], rows }
}

fn raw_key(station: Option<&str>, page: Option<DirectAccessPageRaw>, client_page: Option<ClientPage>) -> DirectAccessKeyRaw {
    DirectAccessKeyRaw { label: vec!["L".to_string()], station_id: station.map(StationId::from), page, client_page }
}

fn client_page() -> Option<ClientPage> {
    Some(ClientPage { config: ClientPageConfig::default(), rows: 1 })
}

fn exclusive(r: Result<(), CoverageError>, a: &str, b: &str) -> bool {
    matches!(r, Err(CoverageError::Validation(ValidationError::MutuallyExclusive { fields }))
        if fields.contains(&a.to_string()) && fields.contains(&b.to_string()))
}

#[test]
fn profile_type_tabbed_validation() {
    let valid = ProfileTypeRaw::Tabbed { tabs: vec![TabRaw { label: "tab1".to_string(), page: raw_page(1) }] };
    assert!(valid.validate().is_ok());

    let empty = ProfileTypeRaw::Tabbed { tabs: vec![] };
    assert!(matches!(
        empty.validate(),
        Err(CoverageError::Validation(ValidationError::Empty { field })) if field == "tabs"
    ));

    let tabs: Vec<TabRaw> = vec![];
    assert!(validate_tabs(&tabs).is_err());
}

#[test]
fn direct_access_page_validation() {
    assert!(raw_page(1).validate().is_ok());
    assert!(matches!(
        raw_page(0).validate(),
        Err(CoverageError::Validation(ValidationError::OutOfRange { field, .. })) if field == "rows"
    ));
}

#[test]
fn direct_access_key_validation() {
    assert!(raw_key(Some("S1"), None, None).validate().is_ok());
    assert!(raw_key(None, Some(raw_page(1)), None).validate().is_ok());
    assert!(raw_key(None, None, client_page()).validate().is_ok());

    assert!(exclusive(raw_key(Some("S1"), Some(raw_page(1)), None).validate(), "station_id", "page"));
    assert!(exclusive(raw_key(Some("S1"), None, client_page()).validate(), "station_id", "client_page"));
    assert!(exclusive(raw_key(None, Some(raw_page(1)), client_page()).validate(), "page", "client_page"));
}

#[test]
fn nested_pages_and_labels_are_checked() {
    let too_long = DirectAccessKeyRaw {
        label: vec!["1".to_string(), "2".to_string(), "3".to_string(), "4".to_string()],
        station_id: None,
        page: None,
        client_page: None,
    };
    match too_long.validate() {
        Err(CoverageError::Validation(ValidationError::InvalidValue { field, value, .. })) => {
            assert_eq!(field, "label");
            assert_eq!(value, "[\"1\", \"2\", \"3\", \"4\"]");
        }
        other => panic!("unexpected {other:?}"),
    }
    let nested = DirectAccessPageRaw { keys: vec![raw_key(None, Some(raw_page(0)), None)], rows: 2 };
    assert!(matches!(
        nested.validate(),
        Err(CoverageError::Validation(ValidationError::OutOfRange { field, .. })) if field == "rows"
    ));
    let bad_client_page = raw_key(None, None, Some(ClientPage { config: ClientPageConfig::default(), rows: 0 }));
    assert!(bad_client_page.validate().is_err());
    let unlabeled = TabRaw { label: String::new(), page: raw_page(1) };
    assert!(matches!(
        unlabeled.validate(),
        Err(CoverageError::Validation(ValidationError::Empty { field })) if field == "label"
    ));
}

#[test]
fn raw_pages_collect_stations_and_check_references() {
    let nested = DirectAccessPageRaw { keys: vec![raw_key(Some("S3"), None, None)], rows: 1 };
    let pages = vec![
        DirectAccessPageRaw { keys: vec![raw_key(Some("S1"), None, None)], rows: 1 },
        DirectAccessPageRaw {
            keys: vec![raw_key(Some("S2"), None, None), raw_key(Some("s1"), None, None), raw_key(None, Some(nested), None)],
            rows: 1,
        },
    ];
    let mut ids: Vec<String> = pages_station_ids(&pages).iter().map(|s| s.as_str().to_string()).collect();
    ids.sort();
    assert_eq!(ids, vec!["S1", "S2", "S3"]);

    let known = vec![StationId::from("S1"), StationId::from("S2")];
    assert!(validate_page_references(&pages, &known).is_ok());
    let bad = vec![DirectAccessPageRaw {
        keys: vec![raw_key(Some("S1"), None, None), raw_key(Some("MISSING"), None, None), raw_key(Some("OTHER"), None, None)],
        rows: 1,
    }];
    assert!(matches!(
        validate_page_references(&bad, &known),
        Err(CoverageError::Validation(ValidationError::MissingReference { field, ref_id }))
            if field == "station_id" && ref_id == "MISSING"
    ));
}

#[test]
fn termination_notice_follows_the_disconnect_reason() {
    assert!(termination_reason(DisconnectReason::Terminated).is_none());
    assert!(matches!(
        termination_reason(DisconnectReason::NoActiveVatsimConnection),
        Some(TerminationReason::NoActiveVatsimConnection)
    ));
    let ids = vec![PositionId::from("LOWW_APP"), PositionId::from("LOWW_B_APP")];
    match termination_reason(DisconnectReason::AmbiguousVatsimPosition(ids)) {
        Some(TerminationReason::AmbiguousVatsimPosition(t)) => {
            assert_eq!(t.len(), 2);
            assert_eq!(t[0].as_str(), "LOWW_APP");
            assert_eq!(t[1].as_str(), "LOWW_B_APP");
        }
        other => panic!("unexpected {:?}", other),
    }
}

#[test]
fn failure_and_termination_notices_carry_their_reason() {
    let failure = LoginFailure::from(LoginFailureReason::Timeout);
    assert!(matches!(failure.reason, LoginFailureReason::Timeout));
    let notice = Terminated::from(TerminationReason::NoActiveVatsimConnection);
    assert!(matches!(notice.reason, TerminationReason::NoActiveVatsimConnection));
}

#[test]
fn protocol_version_must_be_semver() {
    assert!(check_protocol_version("1.2.3", "*").is_ok());
    assert!(check_protocol_version("2.0.0-beta.1+build.5", ">=2.0.0-alpha").is_ok());
    assert!(matches!(check_protocol_version("1.2", "*"), Err(LoginFailureReason::IncompatibleProtocolVersion)));
    assert!(matches!(check_protocol_version("", "*"), Err(LoginFailureReason::IncompatibleProtocolVersion)));
}

#[test]
fn protocol_version_must_be_compatible() {
    assert!(check_protocol_version("1.4.2", "^1.2").is_ok());
    assert!(matches!(check_protocol_version("2.0.0", "^1.2"), Err(LoginFailureReason::IncompatibleProtocolVersion)));
    assert!(matches!(check_protocol_version("1.1.9", "^1.2"), Err(LoginFailureReason::IncompatibleProtocolVersion)));
    assert!(matches!(check_protocol_version("1.4.2", "not a requirement"), Err(LoginFailureReason::IncompatibleProtocolVersion)));
}

#[test]
fn relevant_stations_follow_the_profile() {
    let table = vec![
        (ProfileId::from("LOVV"), vec![StationId::from("LOWW_TWR"), StationId::from("LOWW_APP")]),
        (ProfileId::from("EDMM"), vec![]),
    ];
    assert!(matches!(relevant_stations(&ActiveProfile::Custom, &table), RelevantStations::All));
    assert!(matches!(relevant_stations(&ActiveProfile::Inactive, &table), RelevantStations::NoStations));
    match relevant_stations(&ActiveProfile::Specific(ProfileId::from("LOVV")), &table) {
        RelevantStations::Subset(ids) => {
            let ids: Vec<&str> = ids.iter().map(|s| s.as_str()).collect();
            assert_eq!(ids, vec!["LOWW_TWR", "LOWW_APP"]);
        }
        other => panic!("unexpected {:?}", other),
    }
    assert!(matches!(
        relevant_stations(&ActiveProfile::Specific(ProfileId::from("LZBB")), &table),
        RelevantStations::NoStations
    ));
}
