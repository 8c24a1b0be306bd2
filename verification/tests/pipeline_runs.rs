//! Driving the bounded-concurrency pipeline and reducing its outcomes.

use geobatch::address::{record_from_input_row, Address};
use geobatch::decimal::parse_decimal;
use geobatch::geocoding::{AddressComponent, Geocoding, GeocodingError, PlaceType};
use geobatch::pipeline::{
    outcome_of_reply, reduce_outcomes, Outcome, Pipeline, ServiceReply, StartStep,
};

fn record(site: &str, group: Option<&str>) -> Address {
    let row: Vec<String> = [
        site,
        group.unwrap_or(""),
        "1 Rue de Paris",
        "Paris",
        "75001",
        "",
        "",
        "48.8566",
        "2.3522",
    ]
    .iter()
    .map(|c| c.to_string())
    .collect();
    record_from_input_row(&row).unwrap()
}

fn candidate(route: &str) -> Geocoding {
    Geocoding {
        address_components: vec![AddressComponent {
            long_name: route.to_string(),
            types: vec![PlaceType::Route],
        }],
        lat: parse_decimal("48.86").unwrap(),
        lng: parse_decimal("2.35").unwrap(),
    }
}

fn ok_reply(route: &str) -> ServiceReply {
    ServiceReply::Results(vec![candidate(route)])
}

#[test]
fn every_record_yields_exactly_one_outcome() {
    let records = vec![record("A", Some("G")), record("B", Some("G")), record("C", Some("G"))];
    let mut p = Pipeline::new(records, 2);
    let mut tokens = Vec::new();
    loop {
        match p.step_start() {
            StartStep::Call { token, query: _ } => tokens.push(token),
            StartStep::Skipped => {}
            StartStep::Saturated => {
                let t = tokens.remove(0);
                p.finish(t, ok_reply("Somewhere"));
            }
            StartStep::Exhausted => break,
        }
    }
    for t in tokens {
        p.finish(t, ok_reply("Somewhere"));
    }
    assert!(p.is_done());
    let outcomes = p.into_outcomes();
    assert_eq!(outcomes.len(), 3);
    for o in &outcomes {
        assert!(matches!(o, Outcome::Resolved(_)));
    }
}

#[test]
fn in_flight_calls_never_exceed_the_ceiling() {
    let records: Vec<Address> = (0..7).map(|i| record(&format!("S{}", i), Some("G"))).collect();
    let mut p = Pipeline::new(records, 3);
    let mut tokens = Vec::new();
    let mut max_seen: usize = 0;
    loop {
        assert!(p.in_flight() <= p.ceiling());
        max_seen = max_seen.max(p.in_flight());
        match p.step_start() {
            StartStep::Call { token, query: _ } => tokens.push(token),
            StartStep::Skipped => {}
            StartStep::Saturated => {
                // The limiter refused: exactly the ceiling is out.
                assert_eq!(p.in_flight(), p.ceiling());
                let t = tokens.remove(0);
                p.finish(t, ok_reply("R"));
            }
            StartStep::Exhausted => break,
        }
    }
    for t in tokens {
        p.finish(t, ok_reply("R"));
    }
    assert_eq!(max_seen, 3);
    assert!(p.is_done());
    assert_eq!(p.into_outcomes().len(), 7);
}

#[test]
fn queries_carry_the_record_fields() {
    let mut p = Pipeline::new(vec![record("A", Some("G1"))], 1);
    match p.step_start() {
        StartStep::Call { token, query } => {
            assert_eq!(token, 0);
            assert_eq!(query, "G1, 1 Rue de Paris, Paris, 75001");
        }
        _ => panic!("expected a call"),
    }
}

#[test]
fn unqueryable_record_never_reaches_the_service() {
    // No group name: the record cannot form a query, so the pipeline must
    // fail it at once instead of calling out.
    let records = vec![record("A", None), record("B", Some("G"))];
    let mut p = Pipeline::new(records, 2);
    match p.step_start() {
        StartStep::Skipped => {}
        _ => panic!("a record without query fields must be skipped"),
    }
    // The skipped record consumed no slot.
    assert_eq!(p.in_flight(), 0);
    let token = match p.step_start() {
        StartStep::Call { token, query: _ } => token,
        _ => panic!("the queryable record must be dispatched"),
    };
    p.finish(token, ok_reply("R"));
    assert!(p.is_done());
    let outcomes = p.into_outcomes();
    assert_eq!(outcomes.len(), 2);
    match &outcomes[0] {
        Outcome::Failed(a, GeocodingError::FileAddressNotFound) => {
            assert_eq!(a.site_name.as_deref(), Some("A"));
        }
        o => panic!("expected an unqueryable-record failure, got {:?}", o),
    }
    assert!(matches!(&outcomes[1], Outcome::Resolved(_)));
}

#[test]
fn empty_candidate_list_is_a_no_result_failure() {
    let o = outcome_of_reply(record("A", Some("G")), ServiceReply::Results(vec![]));
    assert!(matches!(o, Outcome::Failed(_, GeocodingError::NoApiResult)));
}

#[test]
fn service_failure_keeps_its_message() {
    let o = outcome_of_reply(
        record("A", Some("G")),
        ServiceReply::Failure("quota exhausted".to_string()),
    );
    match o {
        Outcome::Failed(_, GeocodingError::GoogleMapsError(m)) => {
            assert_eq!(m, "quota exhausted");
        }
        o => panic!("expected a service failure, got {:?}", o),
    }
}

#[test]
fn successful_reply_resolves_the_record() {
    let o = outcome_of_reply(record("A", Some("G")), ok_reply("Rue Neuve"));
    match o {
        Outcome::Resolved(a) => {
            assert_eq!(a.route.as_deref(), Some("Rue Neuve"));
            assert_eq!(a.new_full_address.as_deref(), Some("Rue Neuve"));
        }
        o => panic!("expected a resolved record, got {:?}", o),
    }
}

fn mixed_outcomes() -> Vec<Outcome> {
    vec![
        outcome_of_reply(record("A", Some("G")), ok_reply("R1")),
        outcome_of_reply(record("B", Some("G")), ServiceReply::Failure("down".to_string())),
        outcome_of_reply(record("C", Some("G")), ok_reply("R2")),
        outcome_of_reply(record("D", Some("G")), ServiceReply::Results(vec![])),
    ]
}

#[test]
fn strict_policy_surfaces_the_first_failure() {
    let r = reduce_outcomes(&mixed_outcomes(), false);
    match r {
        Err(GeocodingError::GoogleMapsError(m)) => assert_eq!(m, "down"),
        r => panic!("expected the first failure, got {:?}", r),
    }
}

#[test]
fn strict_policy_passes_a_clean_run_through() {
    let outcomes = vec![
        outcome_of_reply(record("A", Some("G")), ok_reply("R1")),
        outcome_of_reply(record("B", Some("G")), ok_reply("R2")),
    ];
    let found = reduce_outcomes(&outcomes, false).unwrap();
    assert_eq!(found.len(), 2);
    assert_eq!(found[0].site_name.as_deref(), Some("A"));
    assert_eq!(found[1].site_name.as_deref(), Some("B"));
}

#[test]
fn skip_errors_policy_keeps_exactly_the_resolved_subset() {
    let found = reduce_outcomes(&mixed_outcomes(), true).unwrap();
    assert_eq!(found.len(), 2);
    assert_eq!(found[0].site_name.as_deref(), Some("A"));
    assert_eq!(found[0].route.as_deref(), Some("R1"));
    assert_eq!(found[1].site_name.as_deref(), Some("C"));
    assert_eq!(found[1].route.as_deref(), Some("R2"));
}

#[test]
fn reduction_is_deterministic() {
    let a = reduce_outcomes(&mixed_outcomes(), true).unwrap();
    let b = reduce_outcomes(&mixed_outcomes(), true).unwrap();
    assert_eq!(format!("{:?}", a), format!("{:?}", b));
    let c = reduce_outcomes(&mixed_outcomes(), false);
    let d = reduce_outcomes(&mixed_outcomes(), false);
    assert_eq!(format!("{:?}", c), format!("{:?}", d));
}

#[test]
fn empty_outcome_set_reduces_to_nothing() {
    let found = reduce_outcomes(&Vec::new(), false).unwrap();
    assert!(found.is_empty());
}
