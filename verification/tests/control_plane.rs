use dns_authority::catalog::Catalog;
use dns_authority::catalog::QueryOutcome;
use dns_authority::control::add_record;
use dns_authority::control::delete_record;
use dns_authority::control::describe_result;
use dns_authority::control::list_records;
use dns_authority::control::ControlError;
use dns_authority::ip::Ipv4;
use dns_authority::zone::QueryKind;
use dns_authority::zone::ZoneAuthority;
use dns_authority::zone::ZoneKind;

fn single_zone_catalog() -> Catalog {
    let mut catalog = Catalog::new();
    let zone = ZoneAuthority::new("example.com.", ZoneKind::Primary).unwrap();
    catalog.register(zone);
    catalog
}

#[test]
fn add_then_query_returns_value_and_ttl() {
    let mut catalog = single_zone_catalog();
    let r = add_record(&mut catalog, "host.example.com.", "10.0.0.5", 300);
    assert!(r.is_ok());
    let outcome = catalog.query("host.example.com.", QueryKind::Address);
    assert_eq!(
        outcome,
        QueryOutcome::Answer(Ipv4 { a: 10, b: 0, c: 0, d: 5 }, 300)
    );
}

#[test]
fn concrete_scenario_add_list_query() {
    let mut catalog = single_zone_catalog();
    let r = add_record(&mut catalog, "host.example.com.", "10.0.0.5", 300);
    let resp = describe_result(&r, "record added");
    assert!(resp.success);
    assert_eq!(resp.message, "record added");
    let listed = list_records(&catalog);
    assert_eq!(listed.len(), 1);
    assert_eq!(listed[0].0, "host.example.com.");
    assert_eq!(listed[0].1, "10.0.0.5");
    assert_eq!(listed[0].2, 300);
    let outcome = catalog.query("host.example.com.", QueryKind::Address);
    assert_eq!(
        outcome,
        QueryOutcome::Answer(Ipv4 { a: 10, b: 0, c: 0, d: 5 }, 300)
    );
}

#[test]
fn names_are_case_insensitive() {
    let mut catalog = single_zone_catalog();
    let r = add_record(&mut catalog, "Host.Example.COM.", "192.168.1.7", 60);
    assert!(r.is_ok());
    let outcome = catalog.query("hOsT.eXaMpLe.cOm.", QueryKind::Address);
    assert_eq!(
        outcome,
        QueryOutcome::Answer(Ipv4 { a: 192, b: 168, c: 1, d: 7 }, 60)
    );
    let listed = list_records(&catalog);
    assert_eq!(listed.len(), 1);
    assert_eq!(listed[0].0, "Host.Example.COM.");
}

#[test]
fn upsert_overwrites_whole_record() {
    let mut catalog = single_zone_catalog();
    add_record(&mut catalog, "n.example.com.", "10.0.0.1", 100).unwrap();
    add_record(&mut catalog, "n.example.com.", "10.0.0.2", 200).unwrap();
    let outcome = catalog.query("n.example.com.", QueryKind::Address);
    assert_eq!(
        outcome,
        QueryOutcome::Answer(Ipv4 { a: 10, b: 0, c: 0, d: 2 }, 200)
    );
    let listed = list_records(&catalog);
    assert_eq!(listed.len(), 1);
    assert_eq!(listed[0].1, "10.0.0.2");
    assert_eq!(listed[0].2, 200);
}

#[test]
fn delete_yields_authoritative_negative_not_refused() {
    let mut catalog = single_zone_catalog();
    add_record(&mut catalog, "gone.example.com.", "10.1.2.3", 30).unwrap();
    let r = delete_record(&mut catalog, "gone.example.com.");
    assert!(r.is_ok());
    let outcome = catalog.query("gone.example.com.", QueryKind::Address);
    assert_eq!(outcome, QueryOutcome::NoRecord);
    assert_ne!(outcome, QueryOutcome::Refused);
}

#[test]
fn delete_of_absent_in_zone_name_succeeds_without_change() {
    let mut catalog = single_zone_catalog();
    add_record(&mut catalog, "keep.example.com.", "10.9.9.9", 15).unwrap();
    let before = list_records(&catalog);
    let r = delete_record(&mut catalog, "never-added.example.com.");
    assert!(r.is_ok());
    let after = list_records(&catalog);
    assert_eq!(before.len(), after.len());
    assert_eq!(after.len(), 1);
    assert_eq!(after[0].0, "keep.example.com.");
    assert_eq!(after[0].1, "10.9.9.9");
    assert_eq!(after[0].2, 15);
}

#[test]
fn query_outside_every_zone_is_refused() {
    let mut catalog = single_zone_catalog();
    add_record(&mut catalog, "host.example.com.", "10.0.0.5", 300).unwrap();
    let outcome = catalog.query("host.other.org.", QueryKind::Address);
    assert_eq!(outcome, QueryOutcome::Refused);
}

#[test]
fn mutation_outside_every_zone_is_not_configured() {
    let mut catalog = single_zone_catalog();
    let r = add_record(&mut catalog, "host.other.org.", "10.0.0.5", 300);
    assert_eq!(r, Err(ControlError::NotConfigured));
    let r = delete_record(&mut catalog, "host.other.org.");
    assert_eq!(r, Err(ControlError::NotConfigured));
    assert_eq!(list_records(&catalog).len(), 0);
}

#[test]
fn distinct_adds_all_commit_and_list_matches() {
    let mut catalog = single_zone_catalog();
    let inputs = [
        ("a.example.com.", "10.0.0.1", 11u32),
        ("b.example.com.", "10.0.0.2", 22u32),
        ("c.example.com.", "10.0.0.3", 33u32),
    ];
    for (name, value, ttl) in inputs.iter() {
        let r = add_record(&mut catalog, name, value, *ttl);
        assert!(r.is_ok());
    }
    let listed = list_records(&catalog);
    assert_eq!(listed.len(), 3);
    for (i, (name, value, ttl)) in inputs.iter().enumerate() {
        assert_eq!(listed[i].0, *name);
        assert_eq!(listed[i].1, *value);
        assert_eq!(listed[i].2, *ttl);
    }
}

#[test]
fn rejected_add_changes_nothing() {
    let mut catalog = single_zone_catalog();
    add_record(&mut catalog, "host.example.com.", "10.0.0.5", 300).unwrap();
    let before = list_records(&catalog);
    let r = add_record(&mut catalog, "not a domain", "999.999.999.999", 300);
    assert_eq!(r, Err(ControlError::InvalidName));
    let after = list_records(&catalog);
    assert_eq!(before.len(), after.len());
}

#[test]
fn invalid_address_is_rejected_for_valid_name() {
    let mut catalog = single_zone_catalog();
    let r = add_record(&mut catalog, "host.example.com.", "999.999.999.999", 300);
    assert_eq!(r, Err(ControlError::InvalidAddress));
    let r = add_record(&mut catalog, "host.example.com.", "10.0.0.05", 300);
    assert_eq!(r, Err(ControlError::InvalidAddress));
    let r = add_record(&mut catalog, "host.example.com.", "1.2.3", 300);
    assert_eq!(r, Err(ControlError::InvalidAddress));
    assert_eq!(list_records(&catalog).len(), 0);
}

#[test]
fn error_messages_are_fixed() {
    let ok: Result<(), ControlError> = Ok(());
    let resp = describe_result(&ok, "record deleted");
    assert!(resp.success);
    assert_eq!(resp.message, "record deleted");
    let resp = describe_result(&Err(ControlError::InvalidName), "x");
    assert!(!resp.success);
    assert_eq!(resp.message, "invalid domain name");
    let resp = describe_result(&Err(ControlError::InvalidAddress), "x");
    assert!(!resp.success);
    assert_eq!(resp.message, "invalid address value");
    let resp = describe_result(&Err(ControlError::NotConfigured), "x");
    assert!(!resp.success);
    assert_eq!(resp.message, "no zone is configured for this name");
}

#[test]
fn longest_suffix_zone_wins() {
    let mut catalog = Catalog::new();
    let parent = ZoneAuthority::new("example.com.", ZoneKind::Primary).unwrap();
    let child = ZoneAuthority::new("sub.example.com.", ZoneKind::Primary).unwrap();
    catalog.register(parent);
    catalog.register(child);
    // The child record is added second but lands in the child zone, which
    // the snapshot lists after the parent zone's records.
    add_record(&mut catalog, "x.sub.example.com.", "10.2.2.2", 20).unwrap();
    add_record(&mut catalog, "y.example.com.", "10.1.1.1", 10).unwrap();
    let listed = list_records(&catalog);
    assert_eq!(listed.len(), 2);
    assert_eq!(listed[0].0, "y.example.com.");
    assert_eq!(listed[1].0, "x.sub.example.com.");
    let outcome = catalog.query("x.sub.example.com.", QueryKind::Address);
    assert_eq!(
        outcome,
        QueryOutcome::Answer(Ipv4 { a: 10, b: 2, c: 2, d: 2 }, 20)
    );
    let outcome = catalog.query("y.example.com.", QueryKind::Address);
    assert_eq!(
        outcome,
        QueryOutcome::Answer(Ipv4 { a: 10, b: 1, c: 1, d: 1 }, 10)
    );
}

#[test]
fn non_address_query_gets_authoritative_negative() {
    let mut catalog = single_zone_catalog();
    add_record(&mut catalog, "host.example.com.", "10.0.0.5", 300).unwrap();
    let outcome = catalog.query("host.example.com.", QueryKind::Other);
    assert_eq!(outcome, QueryOutcome::NoRecord);
}

#[test]
fn query_on_empty_zone_is_negative_not_refused() {
    let catalog = single_zone_catalog();
    let outcome = catalog.query("anything.example.com.", QueryKind::Address);
    assert_eq!(outcome, QueryOutcome::NoRecord);
    let outcome = catalog.query("example.com.", QueryKind::Address);
    assert_eq!(outcome, QueryOutcome::NoRecord);
}
