use vacs::coverage::geo::{
    profile_pages, GeoNodeRaw, GeoNumber, GeoPageButtonRaw, GeoPageContainerRaw, GeoPageDividerRaw, ProfileRaw,
    ProfileTypeRaw,
};
use vacs::coverage::profile_raw::{pages_station_ids, validate_page_references, DirectAccessKeyRaw, DirectAccessPageRaw};
use vacs::coverage::{CoverageError, ValidationError, Validator};
use vacs::ids::{ProfileId, StationId};

/// A layout number as the profile files give it.
fn num(v: f64) -> GeoNumber {
    GeoNumber { text: v.to_string(), below_zero: v < 0.0, at_most_zero: v <= 0.0 }
}

fn container(children: Vec<GeoNodeRaw>) -> GeoPageContainerRaw {
    GeoPageContainerRaw {
        height: None,
        width: None,
        padding: None,
        padding_left: None,
        padding_right: None,
        padding_top: None,
        padding_bottom: None,
        gap: None,
        children,
    }
}

fn button(label: &[&str], size: f64, page: Option<DirectAccessPageRaw>) -> GeoPageButtonRaw {
    GeoPageButtonRaw { label: label.iter().map(|l| l.to_string()).collect(), size: num(size), page }
}

fn page_calling(stations: &[&str]) -> DirectAccessPageRaw {
    DirectAccessPageRaw {
        keys: stations
            .iter()
            .map(|s| DirectAccessKeyRaw {
                label: vec!["L".to_string()],
                station_id: Some(StationId::from(s)),
                page: None,
                client_page: None,
            })
            .collect(),
        rows: 1,
    }
}

#[test]
fn profile_raw_validation() {
    let valid_geo = ProfileRaw {
        id: ProfileId::from("geo"),
        profile_type: ProfileTypeRaw::Geo(container(vec![GeoNodeRaw::Button(button(&["L"], 1.0, None))])),
    };
    assert!(valid_geo.validate().is_ok());

    let empty_id = ProfileRaw {
        id: ProfileId::from(""),
        profile_type: ProfileTypeRaw::Geo(container(vec![GeoNodeRaw::Button(button(&["L"], 1.0, None))])),
    };
    assert!(matches!(
        empty_id.validate(),
        Err(CoverageError::Validation(ValidationError::Empty { field })) if field == "id"
    ));
}

#[test]
fn profile_type_geo_validation() {
    let empty = ProfileTypeRaw::Geo(container(vec![]));
    assert!(matches!(
        empty.validate(),
        Err(CoverageError::Validation(ValidationError::Empty { field })) if field == "children"
    ));
}

#[test]
fn geo_page_button_validation() {
    let valid = button(&["L"], 10.0, Some(DirectAccessPageRaw { keys: vec![], rows: 1 }));
    assert!(valid.validate().is_ok());

    let empty_label = button(&[], 10.0, Some(DirectAccessPageRaw { keys: vec![], rows: 1 }));
    assert!(matches!(
        empty_label.validate(),
        Err(CoverageError::Validation(ValidationError::Empty { field })) if field == "label"
    ));

    let long_label = button(&["1", "2", "3", "4"], 10.0, Some(DirectAccessPageRaw { keys: vec![], rows: 1 }));
    assert!(matches!(
        long_label.validate(),
        Err(CoverageError::Validation(ValidationError::InvalidValue { field, .. })) if field == "label"
    ));

    let negative_size = button(&["L"], -10.0, Some(DirectAccessPageRaw { keys: vec![], rows: 1 }));
    assert!(matches!(
        negative_size.validate(),
        Err(CoverageError::Validation(ValidationError::OutOfRange { field, .. })) if field == "size"
    ));

    let bad_page = button(&["L"], 10.0, Some(DirectAccessPageRaw { keys: vec![], rows: 0 }));
    assert!(matches!(
        bad_page.validate(),
        Err(CoverageError::Validation(ValidationError::OutOfRange { field, .. })) if field == "rows"
    ));
}

#[test]
fn geo_container_checks_sizes_spacings_and_children_in_order() {
    let mut c = container(vec![GeoNodeRaw::Button(button(&["L"], 1.0, None))]);
    c.height = Some("50%".to_string());
    c.width = Some("12rem".to_string());
    c.gap = Some(num(0.0));
    assert!(c.validate().is_ok());

    c.width = Some("12px".to_string());
    c.padding = Some(num(-1.5));
    match c.validate() {
        Err(CoverageError::Validation(ValidationError::InvalidFormat { field, value, reason })) => {
            assert_eq!(field, "width");
            assert_eq!(value, "12px");
            assert_eq!(reason, "must either be provided as percentage or rem");
        }
        other => panic!("unexpected {:?}", other),
    }

    c.width = None;
    match c.validate() {
        Err(CoverageError::Validation(ValidationError::OutOfRange { field, value, min, max })) => {
            assert_eq!(field, "padding");
            assert_eq!(value, "-1.5");
            assert_eq!(min, "0");
            assert!(max.is_none());
        }
        other => panic!("unexpected {:?}", other),
    }

    c.padding = None;
    c.children.push(GeoNodeRaw::Divider(GeoPageDividerRaw { thickness: num(0.0), color: "#fff".to_string() }));
    c.children.push(GeoNodeRaw::Button(button(&[], 1.0, None)));
    assert!(matches!(
        c.validate(),
        Err(CoverageError::Validation(ValidationError::OutOfRange { field, .. })) if field == "thickness"
    ));
}

#[test]
fn geo_divider_needs_thickness_and_color() {
    let ok = GeoPageDividerRaw { thickness: num(1.0), color: "#fff".to_string() };
    assert!(ok.validate().is_ok());
    let no_color = GeoPageDividerRaw { thickness: num(1.0), color: String::new() };
    assert!(matches!(
        no_color.validate(),
        Err(CoverageError::Validation(ValidationError::Empty { field })) if field == "color"
    ));
    let nan = GeoPageDividerRaw { thickness: num(f64::NAN), color: "#fff".to_string() };
    assert!(nan.validate().is_ok());
}

#[test]
fn geo_profile_pages_follow_the_layout() {
    let inner = container(vec![
        GeoNodeRaw::Button(button(&["B"], 1.0, Some(page_calling(&["S2"])))),
        GeoNodeRaw::Divider(GeoPageDividerRaw { thickness: num(1.0), color: "#000".to_string() }),
    ]);
    let outer = container(vec![
        GeoNodeRaw::Button(button(&["A"], 1.0, Some(page_calling(&["S1"])))),
        GeoNodeRaw::Container(inner),
        GeoNodeRaw::Button(button(&["C"], 1.0, None)),
        GeoNodeRaw::Button(button(&["D"], 1.0, Some(page_calling(&["S3", "S1"])))),
    ]);
    let pages = profile_pages(ProfileTypeRaw::Geo(outer));
    assert_eq!(pages.len(), 3);
    assert_eq!(pages[0].keys[0].station_id.as_ref().unwrap().as_str(), "S1");
    assert_eq!(pages[1].keys[0].station_id.as_ref().unwrap().as_str(), "S2");
    assert_eq!(pages[2].keys[0].station_id.as_ref().unwrap().as_str(), "S3");

    let mut ids: Vec<String> = pages_station_ids(&pages).iter().map(|s| s.as_str().to_string()).collect();
    ids.sort();
    assert_eq!(ids, vec!["S1", "S2", "S3"]);

    let known = vec![StationId::from("S1"), StationId::from("S3")];
    match validate_page_references(&pages, &known) {
        Err(CoverageError::Validation(ValidationError::MissingReference { field, ref_id })) => {
            assert_eq!(field, "station_id");
            assert_eq!(ref_id, "S2");
        }
        other => panic!("unexpected {:?}", other),
    }
}
