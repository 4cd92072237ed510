//! Conversations over the API: server states, sessions and connections.

use relay6::api::codec::Codec;
use relay6::api::frame::{encode_plaintext, read_plaintext, RawMessage};
use relay6::api::proto;
use relay6::api::runner::{dispatch, Connection, Reaction, Step, KEEPALIVE_DEAD, KEEPALIVE_IDLE};
use relay6::api::server::{Capabilities, Outbound};
use relay6::api::varint::Reader;
use relay6::api::{ApiMessage, Command, Device, Error, Event, Meta, Registry, Server, Session, State};

fn server() -> (Server, u32, u32) {
    let device = Device {
        name: "relay6-47abb0".into(),
        friendly_name: "Relays".into(),
        mac_address: "10:51:db:47:ab:b0".into(),
        model: "m".into(),
        manufacturer: "w".into(),
        esphome_version: "2026.9.0".into(),
        compilation_time: "".into(),
        project_name: "p".into(),
        project_version: "0.1.0".into(),
        suggested_area: "".into(),
        encryption: false,
    };
    let mut r = Registry::new();
    let sw = r.switch(Meta::new("relay_1", "Relay 1"));
    let tx = r.text_sensor(Meta::new("link", "Link"));
    (Server::new(device, r, "relay-fw 1.0"), sw, tx)
}

fn wire<M: ApiMessage>(m: &M) -> Vec<u8> {
    encode_plaintext(&RawMessage::encode(m))
}

fn hello() -> Vec<u8> {
    wire(&proto::HelloRequest { client_info: "tester".into(), api_version_major: 1, api_version_minor: 10 })
}

fn sent(events: &[Event]) -> Vec<RawMessage> {
    events
        .iter()
        .filter_map(|e| match e {
            Event::Send(b) => Some(read_plaintext(&mut Reader::new(b.clone())).unwrap()),
            _ => None,
        })
        .collect()
}

fn greeted(server: &Server) -> Session {
    let mut s = Session::new(Codec::Plaintext);
    let events = s.on_bytes(server.shared(), &hello(), 0);
    assert_eq!(events.len(), 2);
    s
}

#[test]
fn hello_is_answered_first() {
    let (srv, _, _) = server();
    let mut s = Session::new(Codec::Plaintext);
    let events = s.on_bytes(srv.shared(), &hello(), 0);
    let r: proto::HelloResponse = sent(&events)[0].decode().unwrap();
    assert_eq!((r.api_version_major, r.api_version_minor), (1, 16));
    assert_eq!((r.server_info.as_str(), r.name.as_str()), ("relay-fw 1.0", "relay6-47abb0"));
    assert!(matches!(&events[1], Event::Hello(x) if x == "tester"));
    assert_eq!(s.client_info(), "tester");

    let mut t = Session::new(Codec::Plaintext);
    let events = t.on_bytes(srv.shared(), &wire(&proto::PingRequest {}), 0);
    assert!(matches!(events[..], [Event::Error(Error::Frame("first message must be HelloRequest"))]));
}

#[test]
fn requests_are_answered() {
    let (srv, sw, tx) = server();
    let mut s = greeted(&srv);
    let ids = |e: &[Event]| sent(e).iter().map(|m| m.id).collect::<Vec<u32>>();
    assert_eq!(ids(&s.on_bytes(srv.shared(), &wire(&proto::PingRequest {}), 0)), vec![8]);
    assert!(s.on_bytes(srv.shared(), &wire(&proto::PingResponse {}), 0).is_empty());
    assert!(s.on_bytes(srv.shared(), &wire(&proto::AuthenticationRequest { password: "x".into() }), 0).is_empty());
    let events = s.on_bytes(srv.shared(), &wire(&proto::DeviceInfoRequest {}), 0);
    let info: proto::DeviceInfoResponse = sent(&events)[0].decode().unwrap();
    assert_eq!(info.mac_address, "10:51:DB:47:AB:B0");
    assert_eq!(ids(&s.on_bytes(srv.shared(), &wire(&proto::ListEntitiesRequest {}), 0)), vec![17, 18, 19]);
    let events = s.on_bytes(srv.shared(), &wire(&proto::GetTimeRequest {}), 1234);
    let time: proto::GetTimeResponse = sent(&events)[0].decode().unwrap();
    assert_eq!(time.epoch_seconds, 1234);
    let events = s.on_bytes(srv.shared(), &wire(&proto::SwitchCommandRequest { key: sw, state: true, device_id: 0 }), 0);
    assert!(matches!(events[..], [Event::Command(Command::Switch { key, on: true })] if key == sw));
    let events = s.on_bytes(srv.shared(), &wire(&proto::GetTimeResponse { epoch_seconds: 5, timezone: "UTC0".into() }), 0);
    assert!(matches!(&events[..], [Event::Command(Command::Time { epoch_seconds: 5, timezone })] if timezone == "UTC0"));
    let args = vec![proto::ExecuteServiceArgument { bool: false, legacy_int: 0, float: 0, string: "{}".into() }];
    let events = s.on_bytes(srv.shared(), &wire(&proto::ExecuteServiceRequest { key: tx, args }), 0);
    assert!(matches!(&events[..], [Event::Command(Command::Service { key, args })] if *key == tx && args[0].string == "{}"));
    // What is not served is ignored.
    assert!(s.on_bytes(srv.shared(), &encode_plaintext(&RawMessage { id: 28, payload: vec![] }), 0).is_empty());
    assert!(s.on_bytes(srv.shared(), &encode_plaintext(&RawMessage { id: 9000, payload: vec![] }), 0).is_empty());
}

#[test]
fn other_commands_are_passed_on() {
    let (srv, _, _) = server();
    let mut s = greeted(&srv);
    let events = s.on_bytes(srv.shared(), &wire(&proto::NumberCommandRequest { key: 4, state: 1.5f32.to_bits(), device_id: 0 }), 0);
    assert!(matches!(events[..], [Event::Command(Command::Number { key: 4, value })] if value == 1.5f32.to_bits()));
    let events = s.on_bytes(srv.shared(), &wire(&proto::SelectCommandRequest { key: 5, state: "off".into(), device_id: 0 }), 0);
    assert!(matches!(&events[..], [Event::Command(Command::Select { key: 5, option })] if option == "off"));
    let events = s.on_bytes(srv.shared(), &wire(&proto::ButtonCommandRequest { key: 6, device_id: 0 }), 0);
    assert!(matches!(events[..], [Event::Command(Command::Button { key: 6 })]));
}

#[test]
fn subscribers_get_all_states_and_then_changes() {
    let (mut srv, sw, tx) = server();
    assert!(srv.set_state(sw, State::Bool(true)).is_some());
    assert!(srv.set_state(sw, State::Bool(true)).is_none(), "nothing new");
    assert!(srv.set_state(tx, State::Text("online".into())).is_some());
    let mut s = greeted(&srv);
    assert!(s.state_update(srv.shared(), sw, &State::Bool(false)).unwrap().is_none(), "not subscribed");
    let events = s.on_bytes(srv.shared(), &wire(&proto::SubscribeStatesRequest {}), 0);
    let mut ids: Vec<u32> = sent(&events).iter().map(|m| m.id).collect();
    assert_eq!(ids.pop(), Some(36), "asks for the time last");
    ids.sort();
    assert_eq!(ids, vec![26, 27]);
    assert_eq!(events.iter().filter(|e| matches!(e, Event::Subscribed)).count(), 1);
    assert!(s.subscribed());
    let bytes = s.state_update(srv.shared(), sw, &State::Bool(false)).unwrap().unwrap();
    let st: proto::SwitchStateResponse = read_plaintext(&mut Reader::new(bytes)).unwrap().decode().unwrap();
    assert_eq!((st.key, st.state), (sw, false));
    assert!(s.state_update(srv.shared(), 12345, &State::Bool(false)).unwrap().is_none(), "no such entity");
}

#[test]
fn the_end_comes_last() {
    let (srv, _, _) = server();
    let mut s = greeted(&srv);
    let mut data = wire(&proto::DisconnectRequest {});
    data.extend(wire(&proto::PingRequest {}));
    let events = s.on_bytes(srv.shared(), &data, 0);
    assert_eq!(sent(&events).len(), 1);
    assert!(matches!(events.last(), Some(Event::Disconnect)));
    // What came after it waits until the caller feeds more, one message at a time.
    assert_eq!(sent(&s.on_bytes(srv.shared(), &[], 0)).len(), 1);
    assert!(s.on_bytes(srv.shared(), &[], 0).is_empty());
}

#[test]
fn pieces_do_not_matter() {
    let (srv, _, _) = server();
    let mut data = hello();
    data.extend(wire(&proto::PingRequest {}));
    data.extend(wire(&proto::DeviceInfoRequest {}));
    let whole = sent(&Session::new(Codec::Plaintext).on_bytes(srv.shared(), &data, 0));
    let mut s = Session::new(Codec::Plaintext);
    let mut pieces = Vec::new();
    for b in &data {
        pieces.extend(sent(&s.on_bytes(srv.shared(), &[*b], 0)));
    }
    assert_eq!(whole, pieces);
    assert_eq!(whole.len(), 3);
}

#[test]
fn bad_frames_and_payloads_end_the_conversation() {
    let (srv, _, _) = server();
    let mut s = greeted(&srv);
    let events = s.on_bytes(srv.shared(), &[0x01, 0, 0], 0);
    assert!(matches!(events[..], [Event::Error(Error::Frame(_))]));
    let mut s = greeted(&srv);
    let events = s.on_bytes(srv.shared(), &encode_plaintext(&RawMessage { id: 33, payload: vec![0xff] }), 0);
    assert!(matches!(events[..], [Event::Error(Error::Decode(_))]));
}

#[test]
fn capabilities_are_answered_if_their_ids_are_known() {
    let (srv, _, _) = server();
    let ask = encode_plaintext(&RawMessage { id: 500, payload: vec![] });
    let mut s = greeted(&srv);
    assert!(s.on_bytes(srv.shared(), &ask, 0).is_empty());
    let srv = srv.with_capabilities(Capabilities { request: 500, response: 501 });
    let mut s = greeted(&srv);
    let got = sent(&s.on_bytes(srv.shared(), &ask, 0));
    assert_eq!(got, vec![RawMessage { id: 501, payload: vec![] }]);
}

#[test]
fn states_are_kept_in_order_and_found() {
    let (mut srv, _, _) = server();
    for k in [9u32, 3, 7, 3] {
        srv.publish_state(k, State::Text(format!("{k}")));
    }
    let keys: Vec<u32> = srv.shared().snapshot().iter().map(|x| x.0).collect();
    assert_eq!(keys, vec![3, 7, 9]);
    assert_eq!(srv.state(7), Some(State::Text("7".into())));
    assert_eq!(srv.state(8), None);
    assert_eq!(srv.device().name, "relay6-47abb0");
    assert_eq!(srv.registry().len(), 2);
}

#[test]
fn numbers_that_stand_for_none_are_always_new() {
    let (mut srv, _, _) = server();
    let nan = State::Float(f32::NAN.to_bits());
    assert!(srv.set_state(1, nan.copy()).is_some());
    assert!(srv.set_state(1, nan).is_some());
    assert!(srv.set_state(2, State::Float(0f32.to_bits())).is_some());
    assert!(srv.set_state(2, State::Float((-0f32).to_bits())).is_none());
}

#[test]
fn logs_probes_and_closing() {
    let (srv, _, _) = server();
    assert!(srv.log(0, 3, vec![1]).is_none());
    assert!(matches!(srv.log(1, 3, vec![1]), Some(Outbound::Log(3, line)) if line == vec![1]));
    assert!(matches!(srv.probe(), Outbound::State(u32::MAX, State::Bool(false))));
    assert!(matches!(srv.close_all(), Outbound::Close));
}

#[test]
fn log_lines_go_to_those_who_asked() {
    let (srv, _, _) = server();
    let mut c = Connection::new(Codec::Plaintext, 0);
    c.on_read(srv.shared(), &hello(), 10, 0);
    let line = |level| Outbound::Log(level, b"[I][main]: hi".to_vec());
    assert!(matches!(c.on_outbound(srv.shared(), &line(3)), Ok(Reaction::Nothing)), "not subscribed");
    let ask = wire(&proto::SubscribeLogsRequest { level: 3, dump_config: false });
    assert!(c.on_read(srv.shared(), &ask, 20, 0).is_empty(), "silence");
    assert!(matches!(c.on_outbound(srv.shared(), &line(5)), Ok(Reaction::Nothing)), "too detailed");
    let Ok(Reaction::Write(bytes)) = c.on_outbound(srv.shared(), &line(3)) else { panic!("nothing sent") };
    let msg = read_plaintext(&mut Reader::new(bytes)).unwrap();
    let mut want = vec![0x08, 3, 0x1a, 13];
    want.extend(b"[I][main]: hi");
    assert_eq!((msg.id, msg.payload), (29, want));
}

#[test]
fn connections_carry_a_conversation() {
    let (mut srv, sw, _) = server();
    srv.set_state(sw, State::Bool(false));
    let mut c = Connection::new(Codec::Plaintext, 0);
    let mut data = hello();
    data.extend(wire(&proto::SubscribeStatesRequest {}));
    assert!(c.has_room(srv.shared(), data.len()));
    let steps = c.on_read(srv.shared(), &data, 10, 0);
    assert!(matches!(&steps[0], Step::Write(_)));
    assert!(matches!(&steps[1], Step::Connected(x) if x == "tester"));
    assert!(steps.iter().any(|s| matches!(s, Step::Tell(Command::ClientSubscribed { client_info }) if client_info == "tester")));
    let out = Outbound::State(sw, State::Bool(true));
    assert!(matches!(c.on_outbound(srv.shared(), &out), Ok(Reaction::Write(_))));
    assert!(matches!(c.on_outbound(srv.shared(), &srv.probe()), Ok(Reaction::Nothing)));
    assert!(matches!(c.on_outbound(srv.shared(), &srv.close_all()), Ok(Reaction::End)));
    assert!(matches!(c.gone(), Command::ClientGone { subscribed: true }));
    assert_eq!(c.client_info(), "tester");
}

#[test]
fn silent_peers_are_asked_once_and_given_up() {
    let (srv, _, _) = server();
    let mut c = Connection::new(Codec::Plaintext, 1_000);
    assert!(c.keepalive(1_000 + KEEPALIVE_IDLE).unwrap().is_none());
    let ping = c.keepalive(1_001 + KEEPALIVE_IDLE).unwrap().unwrap();
    assert_eq!(read_plaintext(&mut Reader::new(ping)).unwrap().id, 7);
    assert!(c.keepalive(2_000 + KEEPALIVE_IDLE).unwrap().is_none());
    c.on_read(srv.shared(), &hello(), 100_000, 0);
    assert!(c.keepalive(100_000 + KEEPALIVE_DEAD).unwrap().is_some());
    assert!(matches!(c.keepalive(100_001 + KEEPALIVE_DEAD), Err(Error::Frame("keepalive timeout"))));
}

#[test]
fn events_become_steps_in_order() {
    let steps = dispatch(
        vec![Event::Send(vec![1]), Event::Subscribed, Event::Command(Command::Button { key: 3 }), Event::Disconnect, Event::Error(Error::Closed)],
        "me",
    );
    assert_eq!(steps.len(), 5);
    assert!(matches!(&steps[0], Step::Write(b) if *b == vec![1]));
    assert!(matches!(&steps[1], Step::Tell(Command::ClientSubscribed { client_info }) if client_info == "me"));
    assert!(matches!(&steps[2], Step::Tell(Command::Button { key: 3 })));
    assert!(matches!(&steps[3], Step::Shut));
    assert!(matches!(&steps[4], Step::Fail(Error::Closed)));
}

#[test]
fn time_and_pings_can_be_asked_for() {
    let (srv, _, _) = server();
    let mut s = greeted(&srv);
    assert_eq!(read_plaintext(&mut Reader::new(s.ping_request().unwrap())).unwrap().id, 7);
    assert_eq!(read_plaintext(&mut Reader::new(s.get_time_request().unwrap())).unwrap().id, 36);
}
