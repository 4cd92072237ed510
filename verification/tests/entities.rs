//! Device identity, entities and their messages.

use relay6::api::device::{mac_from_bytes, NOISE_CIPHER_NAME};
use relay6::api::entity::fnv1_hash;
use relay6::api::proto;
use relay6::api::proto::{NumberMode, SensorStateClass, ServiceArgType};
use relay6::api::{ApiMessage, Device, Kind, Meta, Registry, State};

fn device(mac: String) -> Device {
    Device {
        name: "relay6-47abb0".into(),
        friendly_name: "Relays".into(),
        mac_address: mac,
        model: "esp32-s3-relay-6ch".into(),
        manufacturer: "Waveshare".into(),
        esphome_version: "2026.9.0".into(),
        compilation_time: "".into(),
        project_name: "cascalheira.relay6".into(),
        project_version: "0.1.0".into(),
        suggested_area: "".into(),
        encryption: true,
    }
}

#[test]
fn mac_and_txt() {
    let mac = mac_from_bytes(&[0x10, 0x51, 0xdb, 0x47, 0xab, 0xb0]);
    assert_eq!(mac, "10:51:db:47:ab:b0");
    let d = device(mac);
    let txt = d.mdns_txt();
    let find = |key: &str| txt.iter().find(|x| x.0 == key).map(|x| x.1.as_str());
    assert_eq!(find("mac"), Some("1051db47abb0"));
    assert_eq!(find("api_encryption"), Some(NOISE_CIPHER_NAME));
    assert!(d.device_info().api_encryption_supported);
    assert_eq!(d.device_info().mac_address, "10:51:DB:47:AB:B0");
}

#[test]
fn txt_records_are_sorted_and_plain_without_encryption() {
    let mut d = device("10:51:db:47:ab:b0".into());
    d.encryption = false;
    let txt = d.mdns_txt();
    assert!(txt.iter().all(|x| x.0 != "api_encryption"));
    let mut sorted = txt.clone();
    sorted.sort();
    assert_eq!(txt, sorted);
    assert_eq!(d.mac_compact(), "1051db47abb0");
    assert!(!d.device_info().api_encryption_supported);
}

#[test]
fn keys_and_messages() {
    let mut r = Registry::new();
    let sw = r.switch(Meta::new("relay_1", "Relay 1"));
    let num = r.number(Meta::new("max_on_1", "Max on 1").config(), 0f32.to_bits(), 1440f32.to_bits(), 1f32.to_bits(), "min", NumberMode::Box);
    let svc = r.service("set_schedule", &[("json", ServiceArgType::String)]);
    assert_eq!(sw, fnv1_hash("relay_1"));
    assert_ne!(sw, num);
    assert_eq!(r.len(), 3);
    assert_eq!(r.get(sw).unwrap().list_message().id, proto::ListEntitiesSwitchResponse::ID);
    assert_eq!(r.get(num).unwrap().list_message().id, proto::ListEntitiesNumberResponse::ID);
    let svc_msg = r.get(svc).unwrap().list_message();
    assert_eq!(svc_msg.id, proto::ListEntitiesServicesResponse::ID);
    let decoded: proto::ListEntitiesServicesResponse = svc_msg.decode().unwrap();
    assert_eq!(decoded.args[0].ty, ServiceArgType::String.number());
    assert!(!r.get(svc).unwrap().has_state());
    let st = r.get(sw).unwrap().state_message(&State::Bool(true)).unwrap();
    assert_eq!(st.id, proto::SwitchStateResponse::ID);
    assert!(r.get(sw).unwrap().state_message(&State::Float(1f32.to_bits())).is_none(), "type mismatch");
}

#[test]
fn taken_object_ids_are_refused() {
    let mut r = Registry::new();
    let a = r.try_add(Meta::new("a", "A"), Kind::Button);
    assert_eq!(a, Some(fnv1_hash("a")));
    assert_eq!(r.try_add(Meta::new("a", "B"), Kind::Button), None);
    assert_eq!(r.len(), 1);
    assert_eq!(r.get(a.unwrap()).unwrap().meta.name, "A");
}

#[test]
fn hashes_are_the_published_ones() {
    assert_eq!(fnv1_hash(""), 2166136261);
    assert_eq!(fnv1_hash("a"), 0x050c5d7e);
    assert_eq!(fnv1_hash("foobar"), 0x31f0b262);
}

#[test]
fn every_kind_is_listed_and_reports_its_state() {
    let mut r = Registry::new();
    let keys = [
        r.switch(Meta::new("sw", "Switch").icon("mdi:x")),
        r.number(Meta::new("nu", "Number").config(), 0, 1440f32.to_bits(), 1f32.to_bits(), "min", NumberMode::Slider),
        r.select(Meta::new("se", "Select"), &["one", "two"]),
        r.binary_sensor(Meta::new("bs", "Binary").device_class("problem").diagnostic()),
        r.sensor(Meta::new("ss", "Sensor"), "dBm", 2, SensorStateClass::StateClassMeasurement),
        r.text_sensor(Meta::new("ts", "Text")),
        r.button(Meta::new("bu", "Button")),
        r.service("go", &[]),
    ];
    let ids: Vec<u32> = keys.iter().map(|k| r.get(*k).unwrap().list_message().id).collect();
    assert_eq!(ids, vec![17, 49, 52, 12, 16, 18, 61, 41]);
    let states = [State::Bool(true), State::Float(7f32.to_bits()), State::Text("one".into())];
    let reports: Vec<Vec<Option<u32>>> = keys
        .iter()
        .map(|k| states.iter().map(|s| r.get(*k).unwrap().state_message(s).map(|m| m.id)).collect())
        .collect();
    assert_eq!(reports[0], vec![Some(26), None, None]);
    assert_eq!(reports[1], vec![None, Some(50), None]);
    assert_eq!(reports[2], vec![None, None, Some(53)]);
    assert_eq!(reports[3], vec![Some(21), None, None]);
    assert_eq!(reports[4], vec![None, Some(25), None]);
    assert_eq!(reports[5], vec![None, None, Some(27)]);
    assert_eq!(reports[6], vec![None, None, None]);
    assert_eq!(reports[7], vec![None, None, None]);
    let n: proto::ListEntitiesNumberResponse = r.get(keys[1]).unwrap().list_message().decode().unwrap();
    assert_eq!(f32::from_bits(n.max_value), 1440.0);
    assert_eq!(n.unit_of_measurement, "min");
    assert_eq!(n.mode, NumberMode::Slider.number());
    let s: proto::ListEntitiesSelectResponse = r.get(keys[2]).unwrap().list_message().decode().unwrap();
    assert_eq!(s.options, vec!["one", "two"]);
    let b: proto::ListEntitiesBinarySensorResponse = r.get(keys[3]).unwrap().list_message().decode().unwrap();
    assert_eq!((b.device_class.as_str(), b.entity_category), ("problem", 2));
}

#[test]
fn messages_survive_the_wire_as_prost_writes_them() {
    // Field by field: tag 1 text, tag 2 and 3 numbers, as any Protobuf writer would have it.
    let hello = proto::HelloRequest { client_info: "ab".into(), api_version_major: 1, api_version_minor: 300 };
    assert_eq!(hello.encode_to_vec(), vec![0x0a, 2, b'a', b'b', 0x10, 1, 0x18, 0xac, 0x02]);
    assert_eq!(proto::HelloRequest::decode(&hello.encode_to_vec()).unwrap(), hello);
    let info = device("10:51:db:47:ab:b0".into()).device_info();
    assert_eq!(proto::DeviceInfoResponse::decode(&info.encode_to_vec()).unwrap(), info);
    let cmd = proto::ExecuteServiceRequest {
        key: 0xdead_beef,
        args: vec![proto::ExecuteServiceArgument { bool: true, legacy_int: -3, float: 1.5f32.to_bits(), string: "x".into() }],
    };
    assert_eq!(proto::ExecuteServiceRequest::decode(&cmd.encode_to_vec()).unwrap(), cmd);
    // Unknown fields of every wire type are skipped.
    let mut more = hello.encode_to_vec();
    more.extend([0x78, 5, 0x7d, 1, 2, 3, 4, 0x79, 1, 2, 3, 4, 5, 6, 7, 8, 0x7a, 1, 9, 0x7b, 0x08, 1, 0x7c]);
    assert_eq!(proto::HelloRequest::decode(&more).unwrap(), hello);
    assert!(proto::HelloRequest::decode(&[0x0a, 2, 0xff, 0xfe]).is_err(), "not UTF-8");
}

/// Groups inside each other, with nothing in the last.
fn groups(depth: usize) -> Vec<u8> {
    let mut b = vec![0x7b; depth];
    b.extend(vec![0x7c; depth]);
    b
}

#[test]
fn groups_may_be_nested_less_deep_inside_a_part() {
    let hello = proto::HelloRequest { client_info: "".into(), api_version_major: 0, api_version_minor: 0 };
    assert_eq!(proto::HelloRequest::decode(&groups(100)).unwrap(), hello);
    assert!(proto::HelloRequest::decode(&groups(101)).is_err());

    let inside = |depth: usize| {
        let content = groups(depth);
        let mut b = vec![0x12];
        b.extend([(content.len() % 128) as u8 | 0x80, (content.len() / 128) as u8]);
        b.extend(content);
        b
    };
    let cmd = proto::ExecuteServiceRequest::decode(&inside(99)).unwrap();
    assert_eq!((cmd.key, cmd.args.len()), (0, 1));
    assert_eq!(cmd.args[0], proto::ExecuteServiceArgument { bool: false, legacy_int: 0, float: 0, string: "".into() });
    assert!(proto::ExecuteServiceRequest::decode(&inside(100)).is_err());
}
