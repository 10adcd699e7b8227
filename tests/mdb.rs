use mikrotik_mdb::{
    BridgeMdb, BridgeMdbEntry, DeviceResponse, MalformedRecord, MikrotikBridgeEvent, ReplyRecord,
    contains_port, diff_events, parse_vlan_id, removal_events_of, split_ports,
};

fn record(pairs: &[(&str, Option<&str>)]) -> ReplyRecord {
    ReplyRecord {
        attributes: pairs
            .iter()
            .map(|(k, v)| (k.to_string(), v.map(|s| s.to_string())))
            .collect(),
    }
}

fn entry_record(id: &str, group: &str, vid: &str, ports: &str) -> ReplyRecord {
    record(&[(".id", Some(id)), ("group", Some(group)), ("vid", Some(vid)), ("on-ports", Some(ports))])
}

fn dead_record(id: &str) -> ReplyRecord {
    record(&[(".id", Some(id)), (".dead", Some("true"))])
}

fn describe(e: &MikrotikBridgeEvent) -> String {
    match e {
        MikrotikBridgeEvent::BridgeMdbTableChanged => "changed".to_string(),
        MikrotikBridgeEvent::MdbJoin(m) => format!("join {} {} {}", m.port, m.group, m.vlan_id),
        MikrotikBridgeEvent::MdbLeave(m) => format!("leave {} {} {}", m.port, m.group, m.vlan_id),
    }
}

fn describe_all(events: &[MikrotikBridgeEvent]) -> Vec<String> {
    events.iter().map(describe).collect()
}

fn bootstrap_records() -> Vec<ReplyRecord> {
    vec![
        entry_record("*1", "239.1.1.1", "10", "eth1,eth2"),
        entry_record("*2", "239.1.1.2", "20", "eth3"),
    ]
}

fn loaded(quiet: bool) -> (BridgeMdb, Vec<MikrotikBridgeEvent>) {
    let mut mdb = BridgeMdb::new();
    let events = mdb.load_initial_mdb_entries(&bootstrap_records(), quiet).unwrap();
    (mdb, events)
}

fn ports_of(mdb: &BridgeMdb, id: &str) -> Option<Vec<String>> {
    mdb.get(&id.to_string()).map(|e| e.ports.clone())
}

#[test]
fn bootstrap_emits_joins_then_table_changed() {
    let (_, events) = loaded(false);
    let d = describe_all(&events);
    assert_eq!(d.len(), 4);
    assert_eq!(d[3], "changed");
    let mut joins = d[..3].to_vec();
    joins.sort();
    assert_eq!(
        joins,
        vec!["join eth1 239.1.1.1 10", "join eth2 239.1.1.1 10", "join eth3 239.1.1.2 20"]
    );
    let p1 = d.iter().position(|s| s == "join eth1 239.1.1.1 10").unwrap();
    let p2 = d.iter().position(|s| s == "join eth2 239.1.1.1 10").unwrap();
    assert!(p1 < p2);
}

#[test]
fn quiet_bootstrap_emits_nothing_but_fills_table() {
    let (mdb, events) = loaded(true);
    assert!(events.is_empty());
    let snapshot = mdb.get_bridge_mdb_entries();
    assert_eq!(snapshot.len(), 2);
    let e1 = &snapshot.iter().find(|(id, _)| id == "*1").unwrap().1;
    assert_eq!(e1.group, "239.1.1.1");
    assert_eq!(e1.vlan_id, 10);
    assert_eq!(e1.ports, vec!["eth1", "eth2"]);
    let e2 = &snapshot.iter().find(|(id, _)| id == "*2").unwrap().1;
    assert_eq!(e2.group, "239.1.1.2");
    assert_eq!(e2.vlan_id, 20);
    assert_eq!(e2.ports, vec!["eth3"]);
}

#[test]
fn live_update_emits_leave_join_changed() {
    let (mut mdb, _) = loaded(true);
    let events = mdb.apply_live_record(&entry_record("*1", "239.1.1.1", "10", "eth2,eth4"));
    assert_eq!(
        describe_all(&events),
        vec!["leave eth1 239.1.1.1 10", "join eth4 239.1.1.1 10", "changed"]
    );
    assert_eq!(ports_of(&mdb, "*1").unwrap(), vec!["eth2", "eth4"]);
}

#[test]
fn live_removal_emits_leave_changed() {
    let (mut mdb, _) = loaded(true);
    let events = mdb.apply_live_record(&dead_record("*2"));
    assert_eq!(describe_all(&events), vec!["leave eth3 239.1.1.2 20", "changed"]);
    assert!(ports_of(&mdb, "*2").is_none());
    assert_eq!(mdb.get_bridge_mdb_entries().len(), 1);
}

#[test]
fn removal_of_unknown_id_emits_nothing() {
    let (mut mdb, _) = loaded(true);
    let events = mdb.apply_live_record(&dead_record("*9"));
    assert!(events.is_empty());
    assert_eq!(mdb.get_bridge_mdb_entries().len(), 2);
}

#[test]
fn removal_of_entry_with_two_ports_emits_two_leaves() {
    let (mut mdb, _) = loaded(true);
    let events = mdb.apply_live_record(&dead_record("*1"));
    assert_eq!(
        describe_all(&events),
        vec!["leave eth1 239.1.1.1 10", "leave eth2 239.1.1.1 10", "changed"]
    );
}

#[test]
fn identical_update_emits_only_table_changed() {
    let (mut mdb, _) = loaded(true);
    let events = mdb.apply_live_record(&entry_record("*1", "239.1.1.1", "10", "eth1,eth2"));
    assert_eq!(describe_all(&events), vec!["changed"]);
    assert_eq!(ports_of(&mdb, "*1").unwrap(), vec!["eth1", "eth2"]);
}

#[test]
fn record_without_group_is_ignored() {
    let (mut mdb, _) = loaded(true);
    let r = record(&[(".id", Some("*1")), ("vid", Some("10")), ("on-ports", Some("eth9"))]);
    let events = mdb.apply_live_record(&r);
    assert!(events.is_empty());
    assert_eq!(ports_of(&mdb, "*1").unwrap(), vec!["eth1", "eth2"]);
    assert_eq!(mdb.get_bridge_mdb_entries().len(), 2);
}

#[test]
fn record_without_id_is_ignored() {
    let (mut mdb, _) = loaded(true);
    let r = record(&[("group", Some("239.1.1.9")), ("vid", Some("10")), ("on-ports", Some("eth9"))]);
    assert!(mdb.apply_live_record(&r).is_empty());
    assert_eq!(mdb.get_bridge_mdb_entries().len(), 2);
}

#[test]
fn dead_marker_other_than_true_is_ignored() {
    let (mut mdb, _) = loaded(true);
    let r = record(&[(".id", Some("*2")), (".dead", Some("false"))]);
    assert!(mdb.apply_live_record(&r).is_empty());
    assert!(ports_of(&mdb, "*2").is_some());
}

#[test]
fn live_create_of_new_id_emits_joins() {
    let (mut mdb, _) = loaded(true);
    let events = mdb.apply_live_record(&entry_record("*3", "239.1.1.3", "30", "eth5,eth6"));
    assert_eq!(
        describe_all(&events),
        vec!["join eth5 239.1.1.3 30", "join eth6 239.1.1.3 30", "changed"]
    );
    assert_eq!(mdb.get_bridge_mdb_entries().len(), 3);
}

#[test]
fn update_that_changes_group_labels_leaves_with_new_group() {
    let (mut mdb, _) = loaded(true);
    let events = mdb.apply_live_record(&entry_record("*2", "239.9.9.9", "99", "eth7"));
    assert_eq!(
        describe_all(&events),
        vec!["leave eth3 239.9.9.9 99", "join eth7 239.9.9.9 99", "changed"]
    );
}

#[test]
fn sequence_of_records_matches_fold() {
    let mut mdb = BridgeMdb::new();
    mdb.load_initial_mdb_entries(&bootstrap_records(), true).unwrap();
    mdb.apply_live_record(&entry_record("*3", "239.1.1.3", "30", "eth5"));
    mdb.apply_live_record(&dead_record("*1"));
    mdb.apply_live_record(&entry_record("*2", "239.1.1.2", "20", "eth3,eth8"));
    mdb.apply_live_record(&record(&[(".id", Some("*4")), ("group", Some("x"))]));
    let mut ids: Vec<String> = mdb.get_bridge_mdb_entries().into_iter().map(|(id, _)| id).collect();
    ids.sort();
    assert_eq!(ids, vec!["*2", "*3"]);
    assert_eq!(ports_of(&mdb, "*2").unwrap(), vec!["eth3", "eth8"]);
    assert_eq!(ports_of(&mdb, "*3").unwrap(), vec!["eth5"]);
}

#[test]
fn later_bootstrap_record_replaces_earlier_one() {
    let mut mdb = BridgeMdb::new();
    let records = vec![
        entry_record("*1", "239.1.1.1", "10", "eth1"),
        entry_record("*1", "239.1.1.1", "10", "eth2"),
    ];
    let events = mdb.load_initial_mdb_entries(&records, false).unwrap();
    assert_eq!(describe_all(&events), vec!["join eth2 239.1.1.1 10", "changed"]);
}

#[test]
fn empty_bootstrap_emits_only_table_changed() {
    let mut mdb = BridgeMdb::new();
    let events = mdb.load_initial_mdb_entries(&vec![], false).unwrap();
    assert_eq!(describe_all(&events), vec!["changed"]);
    assert!(mdb.get_bridge_mdb_entries().is_empty());
}

#[test]
fn malformed_bootstrap_record_fails_and_keeps_table() {
    let (mut mdb, _) = loaded(true);
    let records = vec![
        entry_record("*5", "239.1.1.5", "50", "eth1"),
        entry_record("*6", "239.1.1.6", "sixty", "eth1"),
    ];
    assert_eq!(mdb.load_initial_mdb_entries(&records, false).unwrap_err(), MalformedRecord::InvalidVlanId);
    assert_eq!(mdb.get_bridge_mdb_entries().len(), 2);
    assert!(ports_of(&mdb, "*5").is_none());
}

#[test]
fn bootstrap_record_without_id_fails() {
    let mut mdb = BridgeMdb::new();
    let records = vec![record(&[("group", Some("g")), ("vid", Some("1")), ("on-ports", Some("e"))])];
    assert_eq!(mdb.load_initial_mdb_entries(&records, true).unwrap_err(), MalformedRecord::MissingId);
}

#[test]
fn parse_errors_name_the_missing_field() {
    let no_group = record(&[("vid", Some("1")), ("on-ports", Some("e"))]);
    assert_eq!(BridgeMdbEntry::from_reply(&no_group).unwrap_err(), MalformedRecord::MissingGroup);
    let group_without_value = record(&[("group", None), ("vid", Some("1")), ("on-ports", Some("e"))]);
    assert_eq!(BridgeMdbEntry::from_reply(&group_without_value).unwrap_err(), MalformedRecord::MissingGroup);
    let no_vid = record(&[("group", Some("g")), ("on-ports", Some("e"))]);
    assert_eq!(BridgeMdbEntry::from_reply(&no_vid).unwrap_err(), MalformedRecord::MissingVlanId);
    let bad_vid = record(&[("group", Some("g")), ("vid", Some("-1")), ("on-ports", Some("e"))]);
    assert_eq!(BridgeMdbEntry::from_reply(&bad_vid).unwrap_err(), MalformedRecord::InvalidVlanId);
    let no_ports = record(&[("group", Some("g")), ("vid", Some("1"))]);
    assert_eq!(BridgeMdbEntry::from_reply(&no_ports).unwrap_err(), MalformedRecord::MissingPorts);
    assert_eq!(BridgeMdbEntry::from_response(&DeviceResponse::Other).unwrap_err(), MalformedRecord::NotAReply);
}

#[test]
fn parse_reads_a_full_record() {
    let e = BridgeMdbEntry::from_response(&DeviceResponse::Reply(entry_record("*1", "239.1.1.1", "+42", "a,b,c")))
        .unwrap();
    assert_eq!(e.group, "239.1.1.1");
    assert_eq!(e.vlan_id, 42);
    assert_eq!(e.ports, vec!["a", "b", "c"]);
}

#[test]
fn vlan_id_parsing_follows_decimal_rules() {
    assert_eq!(parse_vlan_id("0"), Some(0));
    assert_eq!(parse_vlan_id("4094"), Some(4094));
    assert_eq!(parse_vlan_id("+7"), Some(7));
    assert_eq!(parse_vlan_id("007"), Some(7));
    assert_eq!(parse_vlan_id("4294967295"), Some(u32::MAX));
    assert_eq!(parse_vlan_id("4294967296"), None);
    assert_eq!(parse_vlan_id("99999999999x"), None);
    assert_eq!(parse_vlan_id(""), None);
    assert_eq!(parse_vlan_id("+"), None);
    assert_eq!(parse_vlan_id("-1"), None);
    assert_eq!(parse_vlan_id(" 1"), None);
    assert_eq!(parse_vlan_id("1a"), None);
    for s in ["0", "12", "+3", "4294967295", "4294967296", "", "+", "-0", "x"] {
        assert_eq!(parse_vlan_id(s), s.parse::<u32>().ok(), "{}", s);
    }
}

#[test]
fn port_list_splits_on_commas() {
    assert_eq!(split_ports("eth1,eth2"), vec!["eth1", "eth2"]);
    assert_eq!(split_ports("eth1"), vec!["eth1"]);
    assert_eq!(split_ports(""), vec![""]);
    assert_eq!(split_ports("a,,b,"), vec!["a", "", "b", ""]);
    for s in ["", ",", "a,b", "ä,ö,,x"] {
        let expected: Vec<String> = s.split(',').map(|p| p.to_string()).collect();
        assert_eq!(split_ports(s), expected);
    }
}

#[test]
fn diff_keeps_order_leaves_before_joins() {
    let old: Vec<String> = vec!["a".into(), "b".into(), "c".into()];
    let entry = BridgeMdbEntry { group: "g".into(), vlan_id: 5, ports: vec!["d".into(), "b".into(), "e".into()] };
    assert_eq!(
        describe_all(&diff_events(&old, &entry)),
        vec!["leave a g 5", "leave c g 5", "join d g 5", "join e g 5", "changed"]
    );
    assert_eq!(describe_all(&removal_events_of(&entry)), vec!["leave d g 5", "leave b g 5", "leave e g 5", "changed"]);
    assert!(contains_port(&old, &"b".to_string()));
    assert!(!contains_port(&old, &"z".to_string()));
}

#[test]
fn entry_copy_is_independent() {
    let e = BridgeMdbEntry { group: "g".into(), vlan_id: 1, ports: vec!["p".into()] };
    let mut c = e.copy();
    c.ports.push("q".into());
    assert_eq!(e.ports, vec!["p"]);
    assert_eq!(c.ports, vec!["p", "q"]);
}
