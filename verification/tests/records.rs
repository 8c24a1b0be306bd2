//! Records read from rows, laid out as rows, and reconciled with a
//! geocoding candidate.

use geobatch::address::{
    compose_full_address, record_from_input_row, record_to_output_row, Address, AddressError,
    Addresses,
};
use geobatch::decimal::{parse_decimal, FixedDecimal};
use geobatch::geocoding::{AddressComponent, Geocoding, PlaceType};

fn input_row(cells: [&str; 9]) -> Vec<String> {
    cells.iter().map(|c| c.to_string()).collect()
}

fn sample_row() -> Vec<String> {
    input_row([
        "Site A",
        "Group A",
        "1 Rue de Paris",
        "Paris",
        "75001",
        "Ile-de-France",
        "Paris",
        "48.8566",
        "2.3522",
    ])
}

#[test]
fn reads_a_full_row() {
    let a = record_from_input_row(&sample_row()).unwrap();
    assert_eq!(a.site_name.as_deref(), Some("Site A"));
    assert_eq!(a.group_name.as_deref(), Some("Group A"));
    assert_eq!(a.old_full_address.as_deref(), Some("1 Rue de Paris"));
    assert_eq!(a.old_locality.as_deref(), Some("Paris"));
    assert_eq!(a.old_postal_code.as_deref(), Some("75001"));
    assert_eq!(a.old_administrative_area_level1.as_deref(), Some("Ile-de-France"));
    assert_eq!(a.old_administrative_area_level2.as_deref(), Some("Paris"));
    assert_eq!(a.old_lat, FixedDecimal { mantissa: 488566, scale: 4 });
    assert_eq!(a.old_lng, FixedDecimal { mantissa: 23522, scale: 4 });
    assert_eq!(a.new_full_address, None);
    assert_eq!(a.street_number, None);
    assert_eq!(a.meter_distance, 0);
}

#[test]
fn empty_cells_are_absent_values() {
    let a = record_from_input_row(&input_row(["", "", "", "", "", "", "", "0.0", "0.0"]))
        .unwrap();
    assert_eq!(a.site_name, None);
    assert_eq!(a.group_name, None);
    assert_eq!(a.old_full_address, None);
    assert_eq!(a.old_locality, None);
    assert_eq!(a.old_postal_code, None);
}

#[test]
fn bad_coordinate_is_a_deserialization_error() {
    let r = record_from_input_row(&input_row([
        "s", "g", "a", "c", "z", "1", "2", "not-a-number", "2.0",
    ]));
    assert!(matches!(r, Err(AddressError::DeserializationError)));
}

#[test]
fn wrong_arity_is_a_deserialization_error() {
    let r = record_from_input_row(&vec!["only".to_string(), "three".to_string(), "cells".to_string()]);
    assert!(matches!(r, Err(AddressError::DeserializationError)));
}

#[test]
fn empty_input_is_an_error_not_an_empty_run() {
    let r = Addresses::new(&Vec::new());
    assert!(matches!(r, Err(AddressError::InvalidCsvFormat)));
}

#[test]
fn reads_all_rows_in_order() {
    let rows = vec![sample_row(), input_row(["B", "", "", "", "", "", "", "1.5", "-3"])];
    let a = Addresses::new(&rows).unwrap();
    assert_eq!(a.addresses.len(), 2);
    assert_eq!(a.addresses[0].site_name.as_deref(), Some("Site A"));
    assert_eq!(a.addresses[1].site_name.as_deref(), Some("B"));
    assert_eq!(a.addresses[1].old_lng, FixedDecimal { mantissa: -3, scale: 0 });
}

#[test]
fn one_bad_row_fails_the_input() {
    let rows = vec![sample_row(), input_row(["B", "", "", "", "", "", "", "x", "0"])];
    assert!(matches!(Addresses::new(&rows), Err(AddressError::DeserializationError)));
}

#[test]
fn composes_number_and_route() {
    let r = compose_full_address(
        &Some("12".to_string()),
        &Some("Rue de Paris".to_string()),
    );
    assert_eq!(r.as_deref(), Some("12 Rue de Paris"));
}

#[test]
fn composes_route_alone() {
    let r = compose_full_address(&None, &Some("Rue de Paris".to_string()));
    assert_eq!(r.as_deref(), Some("Rue de Paris"));
}

#[test]
fn composes_nothing_without_route() {
    assert_eq!(compose_full_address(&None, &None), None);
    assert_eq!(compose_full_address(&Some("12".to_string()), &None), None);
}

#[test]
fn builds_query_from_group_address_city_zip() {
    let a = record_from_input_row(&sample_row()).unwrap();
    let q = a.get_address_with_group_name();
    assert_eq!(q.as_deref(), Some("Group A, 1 Rue de Paris, Paris, 75001"));
}

#[test]
fn no_query_when_a_field_is_missing() {
    let mut a = record_from_input_row(&sample_row()).unwrap();
    a.group_name = None;
    assert_eq!(a.get_address_with_group_name(), None);
    let mut b = record_from_input_row(&sample_row()).unwrap();
    b.old_postal_code = None;
    assert_eq!(b.get_address_with_group_name(), None);
}

fn component(name: &str, types: &[PlaceType]) -> AddressComponent {
    AddressComponent { long_name: name.to_string(), types: types.to_vec() }
}

fn paris_candidate() -> Geocoding {
    Geocoding {
        address_components: vec![
            component("12", &[PlaceType::StreetNumber]),
            component("Rue de Paris", &[PlaceType::Route]),
            component("Paris", &[PlaceType::Locality]),
            component("Ile-de-France", &[PlaceType::AdministrativeAreaLevel1]),
            component("Paris", &[PlaceType::AdministrativeAreaLevel2]),
            component("France", &[PlaceType::Country]),
            component("75001", &[PlaceType::PostalCode]),
            component("ignored", &[PlaceType::Other]),
        ],
        lat: parse_decimal("48.8566").unwrap(),
        lng: parse_decimal("2.3522").unwrap(),
    }
}

#[test]
fn parses_a_candidate_into_the_record() {
    let a = record_from_input_row(&sample_row()).unwrap();
    let r = Address::parse_geocoding_result(&paris_candidate(), a);
    assert_eq!(r.street_number.as_deref(), Some("12"));
    assert_eq!(r.route.as_deref(), Some("Rue de Paris"));
    assert_eq!(r.new_full_address.as_deref(), Some("12 Rue de Paris"));
    assert_eq!(r.new_locality.as_deref(), Some("Paris"));
    assert_eq!(r.new_administrative_area_level1.as_deref(), Some("Ile-de-France"));
    assert_eq!(r.new_administrative_area_level2.as_deref(), Some("Paris"));
    assert_eq!(r.country.as_deref(), Some("France"));
    assert_eq!(r.new_postal_code.as_deref(), Some("75001"));
    assert_eq!(r.new_lat, FixedDecimal { mantissa: 488566, scale: 4 });
    assert_eq!(r.new_lng, FixedDecimal { mantissa: 23522, scale: 4 });
    // The input fields are kept as they were.
    assert_eq!(r.site_name.as_deref(), Some("Site A"));
    assert_eq!(r.old_full_address.as_deref(), Some("1 Rue de Paris"));
    // Identical recorded and found coordinates: no drift.
    assert_eq!(r.meter_distance, 0);
}

#[test]
fn one_degree_of_latitude_is_about_111_km() {
    let mut row = sample_row();
    row[7] = "48.0".to_string();
    row[8] = "2.0".to_string();
    let a = record_from_input_row(&row).unwrap();
    let candidate = Geocoding {
        address_components: vec![],
        lat: parse_decimal("49.0").unwrap(),
        lng: parse_decimal("2.0").unwrap(),
    };
    let r = Address::parse_geocoding_result(&candidate, a);
    assert!(
        110_000 <= r.meter_distance && r.meter_distance <= 112_000,
        "got {} meters",
        r.meter_distance
    );
}

#[test]
fn multiple_tags_populate_every_matching_field() {
    let a = record_from_input_row(&sample_row()).unwrap();
    let candidate = Geocoding {
        address_components: vec![component("Twin", &[PlaceType::Route, PlaceType::Locality])],
        lat: parse_decimal("0").unwrap(),
        lng: parse_decimal("0").unwrap(),
    };
    let r = Address::parse_geocoding_result(&candidate, a);
    assert_eq!(r.route.as_deref(), Some("Twin"));
    assert_eq!(r.new_locality.as_deref(), Some("Twin"));
    assert_eq!(r.street_number, None);
}

#[test]
fn the_last_writer_wins() {
    let a = record_from_input_row(&sample_row()).unwrap();
    let candidate = Geocoding {
        address_components: vec![
            component("First", &[PlaceType::Route]),
            component("Second", &[PlaceType::Route]),
        ],
        lat: parse_decimal("0").unwrap(),
        lng: parse_decimal("0").unwrap(),
    };
    let r = Address::parse_geocoding_result(&candidate, a);
    assert_eq!(r.route.as_deref(), Some("Second"));
}

#[test]
fn absent_geocoded_fields_stay_absent() {
    let a = record_from_input_row(&sample_row()).unwrap();
    let candidate = Geocoding {
        address_components: vec![],
        lat: parse_decimal("48.8566").unwrap(),
        lng: parse_decimal("2.3522").unwrap(),
    };
    let r = Address::parse_geocoding_result(&candidate, a);
    assert_eq!(r.street_number, None);
    assert_eq!(r.route, None);
    assert_eq!(r.new_full_address, None);
    assert_eq!(r.new_locality, None);
    assert_eq!(r.country, None);
}

#[test]
fn displays_present_fields_and_coordinates() {
    let a = record_from_input_row(&sample_row()).unwrap();
    assert_eq!(
        a.to_display_string(),
        "Site A 1 Rue de Paris Paris 75001 Ile-de-France Paris 48.8566 2.3522"
    );
    let b = record_from_input_row(&input_row(["", "", "", "", "", "", "", "1.5", "-3"]))
        .unwrap();
    assert_eq!(b.to_display_string(), "1.5 -3");
}

#[test]
fn lays_records_out_as_the_output_table() {
    let a = record_from_input_row(&sample_row()).unwrap();
    let resolved = Address::parse_geocoding_result(&paris_candidate(), a);
    let table = Addresses::addresses_to_csv(vec![resolved], "sites");
    assert_eq!(table.file_path, "./results/sites_gmaps_version.csv");
    assert_eq!(
        table.header,
        vec![
            "site",
            "group",
            "old_address",
            "new_address",
            "old_city",
            "new_city",
            "old_zip",
            "new_zip",
            "old_administrative_area_level1",
            "new_administrative_area_level1",
            "old_administrative_area_level2",
            "new_administrative_area_level2",
            "old_lat",
            "new_lat",
            "old_lng",
            "new_lng",
            "meter_distance",
        ]
    );
    assert_eq!(table.rows.len(), 1);
    let row = &table.rows[0];
    assert_eq!(row.len(), 17);
    assert_eq!(row[0], "Site A");
    assert_eq!(row[1], "Group A");
    assert_eq!(row[2], "1 Rue de Paris");
    assert_eq!(row[3], "12 Rue de Paris");
    assert_eq!(row[12], "48.8566");
    assert_eq!(row[13], "48.8566");
    assert_eq!(row[14], "2.3522");
    assert_eq!(row[15], "2.3522");
    assert_eq!(row[16], "0");
}

#[test]
fn output_rows_read_back_as_the_input_records() {
    let a = record_from_input_row(&sample_row()).unwrap();
    let resolved = Address::parse_geocoding_result(&paris_candidate(), a.clone());
    let out = record_to_output_row(&resolved);
    // The nine input columns of the output row.
    let back_row: Vec<String> =
        [0, 1, 2, 4, 6, 8, 10, 12, 14].iter().map(|&i| out[i].clone()).collect();
    let back = record_from_input_row(&back_row).unwrap();
    assert_eq!(format!("{:?}", back), format!("{:?}", a));
}

#[test]
fn configuration_is_carried_as_given() {
    let args = geobatch::args::Arguments::new("./sites.csv".to_string(), true);
    assert_eq!(args.file_path, "./sites.csv");
    assert!(args.skip_error_check);
}
