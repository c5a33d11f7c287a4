// Tests of the data model: identities, base64, datasets, text, parsing.

use spider::client::{ConnectSource, SpiderClientBuilder, SpiderClientState};
use spider::config::SpiderConfig;
use spider::dataset::{AbsoluteDatasetPath, DatasetPath, DatasetScope};
use spider::dataset_data::{parse_usize, DatasetData};
use spider::datastore::{
    dataset_append, dataset_delete_element, dataset_empty, dataset_extend, dataset_file_segments,
    dataset_set_element, dataset_set_elements,
};
use spider::id::SpiderId2048;
use spider::peripherals::{
    launch_invocation, package_name_of, rotate_log_content, LaunchConfig, PeripheralManifest,
};
use spider::relation::{base64_round_trip, Relation, Role};
use spider::text::{i32_to_string, u64_to_string};
use spider::ui_state::split_setting_id;

fn sample_id(fill: u8) -> SpiderId2048 {
    SpiderId2048::from_bytes(vec![fill; 294])
}

fn sample_relation(fill: u8, role: Role) -> Relation {
    Relation { role, id: sample_id(fill) }
}

#[test]
fn base64_encodes_with_role_tag() {
    let rel = Relation { role: Role::Peer, id: SpiderId2048::from_bytes(vec![1, 2, 3]) };
    // bytes 01 02 03 00 encode as AQIDAA in url-safe unpadded base64
    assert_eq!(rel.to_base64(), "AQIDAA");
    let rel = Relation { role: Role::Peripheral, id: SpiderId2048::from_bytes(vec![1, 2, 3]) };
    assert_eq!(rel.to_base64(), "AQIDAQ");
}

#[test]
fn base64_relation_round_trip() {
    let rel = sample_relation(7, Role::Peripheral);
    let back = base64_round_trip(&rel);
    assert!(back == rel);
    let rel = sample_relation(0, Role::Peer);
    let decoded = Relation::from_base64(rel.to_base64()).expect("round trip");
    assert!(decoded == rel);
}

#[test]
fn base64_rejects_noise() {
    assert!(Relation::from_base64(String::from("!!!not base64!!!")).is_none());
    // a valid encoding of the wrong length is no relation: a node id is
    // exactly 294 bytes
    let short = Relation { role: Role::Peer, id: SpiderId2048::from_bytes(vec![1, 2, 3]) };
    assert!(Relation::from_base64(short.to_base64()).is_none());
    // 295 zero bytes end in the peer tag and decode fine
    let exact = Relation { role: Role::Peer, id: SpiderId2048::from_bytes(vec![0; 294]) };
    assert!(Relation::from_base64(exact.to_base64()).is_some());
}

#[test]
fn id_base64_requires_exact_size() {
    let id = sample_id(9);
    let encoded = id.to_base64();
    let back = SpiderId2048::from_base64(encoded.as_str()).expect("round trip");
    assert!(back == id);
    // three bytes decode fine as base64 but are no 294-byte id
    assert!(SpiderId2048::from_base64("AQID").is_none());
}

#[test]
fn sha256_digest_is_hex_of_bytes() {
    let id = SpiderId2048::from_bytes(vec![b'a', b'b', b'c']);
    assert_eq!(
        id.sha256(),
        "ba7816bf8f01cfea414140de5dae2223b00361a396177a9cb410ff61f20015ad"
    );
}

#[test]
fn decimal_rendering() {
    assert_eq!(u64_to_string(0), "0");
    assert_eq!(u64_to_string(90210), "90210");
    assert_eq!(i32_to_string(-45), "-45");
    assert_eq!(i32_to_string(i32::MIN), "-2147483648");
}

#[test]
fn parse_usize_reads_decimal() {
    assert_eq!(parse_usize("0"), Some(0));
    assert_eq!(parse_usize("417"), Some(417));
    assert_eq!(parse_usize("+9"), Some(9));
    assert_eq!(parse_usize(""), None);
    assert_eq!(parse_usize("+"), None);
    assert_eq!(parse_usize("4x"), None);
    assert_eq!(parse_usize("99999999999999999999999999"), None);
}

#[test]
fn dataset_set_element_pads_with_null() {
    let mut data = vec![DatasetData::Int(1)];
    dataset_set_element(&mut data, 3, DatasetData::Int(9));
    assert_eq!(data.len(), 4);
    assert!(matches!(data[0], DatasetData::Int(1)));
    assert!(matches!(data[1], DatasetData::Null));
    assert!(matches!(data[2], DatasetData::Null));
    assert!(matches!(data[3], DatasetData::Int(9)));
}

#[test]
fn dataset_set_element_in_place() {
    let mut data = vec![DatasetData::Int(1), DatasetData::Int(2)];
    dataset_set_element(&mut data, 0, DatasetData::Byte(8));
    assert_eq!(data.len(), 2);
    assert!(matches!(data[0], DatasetData::Byte(8)));
}

#[test]
fn dataset_delete_past_end_is_no_op() {
    let mut data = vec![DatasetData::Int(1), DatasetData::Int(2)];
    dataset_delete_element(&mut data, 2);
    assert_eq!(data.len(), 2);
    dataset_delete_element(&mut data, 0);
    assert_eq!(data.len(), 1);
    assert!(matches!(data[0], DatasetData::Int(2)));
}

#[test]
fn dataset_extend_and_empty() {
    let mut data = vec![DatasetData::Int(1)];
    dataset_extend(&mut data, vec![DatasetData::Int(2), DatasetData::Int(3)]);
    assert_eq!(data.len(), 3);
    assert!(matches!(data[2], DatasetData::Int(3)));
    dataset_append(&mut data, DatasetData::Int(4));
    assert_eq!(data.len(), 4);
    dataset_empty(&mut data);
    assert_eq!(data.len(), 0);
}

#[test]
fn dataset_set_elements_pads_and_overwrites() {
    let mut data = vec![DatasetData::Int(1)];
    dataset_set_elements(&mut data, 2, vec![DatasetData::Int(7), DatasetData::Int(8)]);
    assert_eq!(data.len(), 4);
    assert!(matches!(data[1], DatasetData::Null));
    assert!(matches!(data[2], DatasetData::Int(7)));
    assert!(matches!(data[3], DatasetData::Int(8)));
}

#[test]
fn dataset_text_rendering() {
    let table = DatasetData::Table(vec![
        (String::from("name"), DatasetData::String(String::from("lamp"))),
        (String::from("count"), DatasetData::Int(-2)),
    ]);
    let data = DatasetData::Array(vec![DatasetData::Byte(5), table, DatasetData::Null]);
    assert_eq!(data.to_string(), "[5, {name: lamp, count: -2}, <null>]");
}

#[test]
fn dataset_property_lookup() {
    let table = DatasetData::Table(vec![
        (String::from("name"), DatasetData::String(String::from("lamp"))),
    ]);
    let data = DatasetData::Array(vec![DatasetData::Int(3), table]);
    let inner = data.get_property(&String::from("1"));
    let name = inner.get_property(&String::from("name"));
    assert_eq!(name.to_string(), "lamp");
    let missing = data.get_property(&String::from("7"));
    assert!(matches!(missing, DatasetData::Null));
}

#[test]
fn dataset_file_layout() {
    let public = AbsoluteDatasetPath::new_public(vec![String::from("metrics")]);
    let segs = dataset_file_segments(&public);
    assert_eq!(segs, vec![String::from("public"), String::from("metrics")]);
    let private = DatasetPath::new_private(vec![String::from("rows")]);
    assert!(matches!(private.scope(), DatasetScope::Private));
    let abs = private.resolve(SpiderId2048::from_bytes(vec![b'a', b'b', b'c']));
    let segs = dataset_file_segments(&abs);
    assert_eq!(segs.len(), 2);
    assert_eq!(
        segs[0],
        "ba7816bf8f01cfea414140de5dae2223b00361a396177a9cb410ff61f20015ad"
    );
    assert_eq!(segs[1], "rows");
}

#[test]
fn package_names_follow_the_last_segment() {
    assert_eq!(
        package_name_of(&String::from("https://host/things/widget.git")),
        Some(String::from("widget"))
    );
    assert_eq!(
        package_name_of(&String::from("https://host/widget")),
        Some(String::from("widget"))
    );
    assert_eq!(package_name_of(&String::from("widget")), None);
}

#[test]
fn log_rotation_keeps_the_tail() {
    let log = String::from("aaaa\nbbbb\ncccc");
    // half is at index 7, inside "bbbb"; the next line starts at "cccc"
    assert_eq!(rotate_log_content(&log), "cccc");
    let no_newline = String::from("aaaaaaaa");
    assert_eq!(rotate_log_content(&no_newline), "");
}

#[test]
fn manifest_from_parts_reads_methods() {
    let m = PeripheralManifest::from_parts(
        Some(&String::from("cargo")),
        &String::from("exe"),
        Some(String::from("bin/run")),
    )
    .expect("manifest");
    assert!(matches!(m.launch(), LaunchConfig::Exe(p) if p == "bin/run"));
    let (prog, args) = launch_invocation(&m);
    assert_eq!(prog, "bin/run");
    assert!(args.is_empty());
    let m = PeripheralManifest::from_parts(None, &String::from("cargo"), None).expect("manifest");
    let (prog, args) = launch_invocation(&m);
    assert_eq!(prog, "cargo");
    assert_eq!(args, vec![String::from("run")]);
    assert!(PeripheralManifest::from_parts(None, &String::from("exe"), None).is_none());
    assert!(PeripheralManifest::from_parts(None, &String::from("sh"), None).is_none());
}

#[test]
fn setting_ids_carry_their_slot() {
    let (header, slot) = split_setting_id(&String::from("Directory2")).expect("slot");
    assert_eq!(header, "Directory");
    assert_eq!(slot, 2);
    assert!(split_setting_id(&String::from("Directory")).is_none());
    assert!(split_setting_id(&String::from("")).is_none());
}

#[test]
fn config_defaults() {
    let config = SpiderConfig::new_default();
    assert_eq!(config.listen_addr, "0.0.0.0:1930");
    assert_eq!(config.log_path, "spider.log");
    assert_eq!(config.state_data_path, "state.dat");
    assert_eq!(config.dataset_path(), "datasets");
}

#[test]
fn client_builder_setters() {
    let state = SpiderClientState::new().expect("key generation");
    let mut builder = SpiderClientBuilder::new(state);
    assert!(!builder.has_host_relation());
    builder.set_host_relation(sample_relation(3, Role::Peer));
    assert!(builder.has_host_relation());
    builder.clear_host_relation();
    assert!(!builder.has_host_relation());
    builder.enable_fixed_addrs(true);
    builder.set_fixed_addrs(vec![String::from("localhost:1930")]);
    builder.enable_beacon(false);
    builder.enable_chord(false);
    builder.enable_last_addr(false);
    let plan = spider::client::connect_attempt_plan(&builder.state);
    assert_eq!(plan.len(), 1);
    assert!(matches!(&plan[0], ConnectSource::Fixed(a) if a == "localhost:1930"));
}

#[test]
fn connect_plan_orders_strategies() {
    let mut state = SpiderClientState::new().expect("key generation");
    state.set_last_addr_classified(Some(String::from("10.0.0.2:1930")), false);
    state.set_last_addr_classified(Some(String::from("8.8.8.8:1930")), true);
    state.chord_addrs = vec![String::from("chord:2001")];
    state.fixed_addr_enable = true;
    state.fixed_addrs = vec![String::from("fixed:1930")];
    let plan = spider::client::connect_attempt_plan(&state);
    assert_eq!(plan.len(), 5);
    assert!(matches!(&plan[0], ConnectSource::LastLocal(a) if a == "10.0.0.2:1930"));
    assert!(matches!(&plan[1], ConnectSource::LastGlobal(a) if a == "8.8.8.8:1930"));
    assert!(matches!(&plan[2], ConnectSource::Beacon));
    assert!(matches!(&plan[3], ConnectSource::ChordLookup(a) if a == "chord:2001"));
    assert!(matches!(&plan[4], ConnectSource::Fixed(a) if a == "fixed:1930"));
}
