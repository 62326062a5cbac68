use fleet_reconcile::poller::static_zones;

#[test]
fn configured_zones_are_polled_as_they_are() {
    let zones = vec!["BERLIN".to_string(), "PARIS".to_string()];
    assert_eq!(static_zones(Some(zones.clone())), Some(zones));
}

#[test]
fn absent_list_triggers_discovery() {
    assert_eq!(static_zones(None), None);
}

#[test]
fn empty_list_triggers_discovery() {
    assert_eq!(static_zones(Some(vec![])), None);
}
