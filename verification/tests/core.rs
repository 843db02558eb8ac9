use poke_escape_server::map::{GameMap, MapPlaces, RawConfig, RawField, RawFeatures, RawMapEntry,
    RawMapFile, RawMapsTable};
use poke_escape_server::server::{greeting_line, immediate_line, mismatch_line, negotiate_line,
    reply_line, Coordinator, Handshake, Ident, Message, MessageBody, Negotiation, Session,
    SessionAction};
use poke_escape_server::threads::ThreadPool;
use poke_escape_server::version::Version;

fn store_with_forest() -> MapPlaces {
    let cfg = RawConfig {
        maps: Some(RawMapsTable {
            version: RawField::Text("1.0.0".to_string()),
            maps: Some(vec![Some("forest".to_string())]),
        }),
        tables: vec![(
            "forest".to_string(),
            RawMapEntry {
                path: RawField::Text("maps/forest.json".to_string()),
                version: RawField::Text("0.1.0".to_string()),
                format: RawField::Text("JSON".to_string()),
                author: poke_escape_server::map::RawAuthor::Single(Some("ash".to_string())),
            },
        )],
    };
    let mut places = MapPlaces::new(&cfg, false).unwrap();
    let raw = RawMapFile {
        name: RawField::Text("forest".to_string()),
        features: RawFeatures::Missing,
        rows: Some(vec![Some(vec![Some(5), Some(0), Some(2)])]),
    };
    let map = GameMap::from_raw(raw).unwrap();
    assert!(places.set_loaded("forest", map));
    places
}

fn ident_msg(id: &str) -> Message {
    Message::new(id.to_string(), MessageBody::Identify(Ident::new(id.to_string())))
}

#[test]
fn handshake_accepts_supported_version() {
    match negotiate_line("POKE-ESCAPE_0.1.0\n") {
        Negotiation::Session(Handshake::Accepted(v)) => {
            assert_eq!(v, Version::new(0, 1, 0));
        }
        _ => panic!("version 0.1.0 must be accepted"),
    }
}

#[test]
fn handshake_rejects_newer_version() {
    assert!(matches!(
        negotiate_line("POKE-ESCAPE_0.2.0\n"),
        Negotiation::Session(Handshake::Rejected(_))
    ));
    assert_eq!(mismatch_line(), "Protocol mismatch.\n");
}

#[test]
fn handshake_rejects_prerelease() {
    match negotiate_line("POKE-ESCAPE_0.1.0-alpha\n") {
        Negotiation::Session(Handshake::Rejected(v)) => {
            assert!(v.pre);
        }
        _ => panic!("a pre-release never satisfies the rule"),
    }
}

#[test]
fn handshake_malformed_version() {
    assert!(matches!(
        negotiate_line("POKE-ESCAPE_banana\n"),
        Negotiation::Session(Handshake::Malformed)
    ));
}

#[test]
fn negotiate_routes_http_and_mismatch() {
    assert!(matches!(negotiate_line("GET / HTTP/1.1\r\n"), Negotiation::Http));
    assert!(matches!(negotiate_line("hello there\n"), Negotiation::Mismatch));
}

#[test]
fn greeting_names_the_server_version() {
    assert_eq!(greeting_line(&Version::new(0, 1, 0)), "POKE-ESCAPE-SERVER_0.1.0\n");
}

#[test]
fn session_identify_only_once() {
    let mut s = Session::new();
    match s.step("identify alice\n") {
        SessionAction::SendIdentify(m) => {
            assert_eq!(m.id, "alice");
            assert!(matches!(m.message, MessageBody::Identify(i) if i.id == "alice"));
        }
        _ => panic!("first identify must be honoured"),
    }
    let again = s.step("identify bob\n");
    assert!(matches!(again, SessionAction::RejectIdentify));
    assert_eq!(immediate_line(&again).unwrap(), "Error\n");
}

#[test]
fn session_dispatch_is_case_insensitive() {
    let mut s = Session::new();
    s.step("identify alice");
    assert!(matches!(
        s.step("  JOIN room1  \n"),
        SessionAction::SendJoin(m) if matches!(&m.message, MessageBody::JoinGroup(g) if g == "room1")
    ));
    assert!(matches!(
        s.step("MAP forest\n"),
        SessionAction::QueryMap(m) if matches!(&m.message, MessageBody::GetMap(n) if n == "forest")
    ));
    let quit = s.step("QUIT now\n");
    assert!(matches!(&quit, SessionAction::Quit(m) if m.id == "alice"));
    assert_eq!(immediate_line(&quit).unwrap(), "Bye\n");
}

#[test]
fn session_unknown_command() {
    let mut s = Session::new();
    let a = s.step("dance\n");
    assert!(matches!(a, SessionAction::Unknown));
    assert_eq!(immediate_line(&a).unwrap(), "Unknown command\n");
}

#[test]
fn session_join_before_identify_uses_placeholder_id() {
    let mut s = Session::new();
    match s.step("join lobby\n") {
        SessionAction::SendJoin(m) => assert_eq!(m.id, "00001"),
        _ => panic!("join must be forwarded"),
    }
}

#[test]
fn reply_lines_for_map_results() {
    let ok = Message::new("master".to_string(), MessageBody::MapResult("{}".to_string()));
    assert_eq!(reply_line(&ok).unwrap(), "map {}\n");
    let err = Message::new("master".to_string(), MessageBody::ErrorResult("x".to_string()));
    assert_eq!(reply_line(&err).unwrap(), "error could not load map\n");
    let other = Message::new("master".to_string(), MessageBody::Close);
    assert!(reply_line(&other).is_none());
}

#[test]
fn message_helpers() {
    let empty = Message::empty();
    assert_eq!(empty.id, "00001");
    assert!(matches!(empty.message, MessageBody::Close));
    let keyed = Message::new_id("alice".to_string());
    let next = keyed.new_message(MessageBody::JoinGroup("g".to_string()));
    assert_eq!(next.id, "alice");
    assert_eq!(keyed.summary(), "Message from alice");
}

#[test]
fn coordinator_identify_then_close_removes_client() {
    let mut co = Coordinator::new(store_with_forest());
    co.handle(&ident_msg("alice"));
    assert!(co.client_room("alice").is_some());
    co.handle(&Message::new("alice".to_string(), MessageBody::Close));
    assert!(co.client_room("alice").is_none());
}

#[test]
fn coordinator_close_unknown_is_harmless() {
    let mut co = Coordinator::new(store_with_forest());
    assert!(co.handle(&Message::new("ghost".to_string(), MessageBody::Close)).is_none());
    assert!(co.client_room("ghost").is_none());
}

#[test]
fn coordinator_repeated_joins_append_duplicates() {
    let mut co = Coordinator::new(store_with_forest());
    co.handle(&ident_msg("alice"));
    let join = Message::new("alice".to_string(), MessageBody::JoinGroup("g".to_string()));
    co.handle(&join);
    co.handle(&join.new_message(MessageBody::JoinGroup("g".to_string())));
    assert_eq!(co.client_room("alice").unwrap(), Some("g".to_string()));
    let members = co.group_members("g");
    assert_eq!(members, vec!["alice".to_string(), "alice".to_string()]);
}

#[test]
fn coordinator_room_is_last_group_joined() {
    let mut co = Coordinator::new(store_with_forest());
    co.handle(&ident_msg("alice"));
    co.handle(&Message::new("alice".to_string(), MessageBody::JoinGroup("g".to_string())));
    co.handle(&Message::new("alice".to_string(), MessageBody::JoinGroup("h".to_string())));
    assert_eq!(co.client_room("alice").unwrap(), Some("h".to_string()));
    assert_eq!(co.group_members("h"), vec!["alice".to_string()]);
}

#[test]
fn coordinator_join_from_unknown_client_is_dropped() {
    let mut co = Coordinator::new(store_with_forest());
    co.handle(&Message::new("00001".to_string(), MessageBody::JoinGroup("g".to_string())));
    assert!(co.group_members("g").is_empty());
}

#[test]
fn coordinator_close_leaves_room_of_others() {
    let mut co = Coordinator::new(store_with_forest());
    co.handle(&ident_msg("alice"));
    co.handle(&ident_msg("bob"));
    co.handle(&Message::new("alice".to_string(), MessageBody::JoinGroup("g".to_string())));
    co.handle(&Message::new("bob".to_string(), MessageBody::JoinGroup("g".to_string())));
    co.handle(&Message::new("alice".to_string(), MessageBody::Close));
    assert_eq!(co.group_members("g"), vec!["bob".to_string()]);
    assert_eq!(co.client_room("bob").unwrap(), Some("g".to_string()));
}

#[test]
fn coordinator_answers_map_request_with_payload() {
    let mut co = Coordinator::new(store_with_forest());
    co.handle(&ident_msg("alice"));
    let (target, reply) = co
        .handle(&Message::new("alice".to_string(), MessageBody::GetMap("forest".to_string())))
        .expect("a known client is always answered");
    assert_eq!(target, "alice");
    assert_eq!(reply.id, "master");
    let payload = match &reply.message {
        MessageBody::MapResult(p) => p.clone(),
        _ => panic!("a present, loaded map must come back as a map result"),
    };
    let line = reply_line(&reply).unwrap();
    assert!(line.starts_with("map "));
    assert!(line.ends_with("\n"));
    let value: serde_json::Value = serde_json::from_str(&payload).unwrap();
    assert_eq!(value["name"], serde_json::Value::String("forest".to_string()));
    assert!(value["features"].is_null());
    assert_eq!(value["map"][0][0], serde_json::Value::from(5));
    assert_eq!(value["map"][0][3], serde_json::Value::from(1));
    assert_eq!(value["map"][0].as_array().unwrap().len(), 28);
}

#[test]
fn coordinator_answers_absent_map_with_error() {
    let mut co = Coordinator::new(store_with_forest());
    co.handle(&ident_msg("alice"));
    let (_, reply) = co
        .handle(&Message::new("alice".to_string(), MessageBody::GetMap("swamp".to_string())))
        .unwrap();
    assert!(matches!(reply.message, MessageBody::ErrorResult(_)));
    assert_eq!(reply_line(&reply).unwrap(), "error could not load map\n");
}

#[test]
fn coordinator_drops_map_request_from_unknown_client() {
    let mut co = Coordinator::new(store_with_forest());
    let r = co.handle(&Message::new("ghost".to_string(), MessageBody::GetMap("forest".to_string())));
    assert!(r.is_none());
}

#[test]
fn coordinator_batch_equals_stepwise_processing() {
    let msgs = vec![
        ident_msg("alice"),
        ident_msg("bob"),
        Message::new("alice".to_string(), MessageBody::JoinGroup("g".to_string())),
        Message::new("bob".to_string(), MessageBody::JoinGroup("g".to_string())),
        Message::new("alice".to_string(), MessageBody::GetMap("forest".to_string())),
        Message::new("bob".to_string(), MessageBody::Close),
    ];
    let mut batch = Coordinator::new(store_with_forest());
    batch.handle_all(&msgs);
    let mut stepwise = Coordinator::new(store_with_forest());
    for m in &msgs {
        stepwise.handle(m);
    }
    assert_eq!(batch.client_room("alice"), stepwise.client_room("alice"));
    assert_eq!(batch.client_room("bob"), stepwise.client_room("bob"));
    assert_eq!(batch.group_members("g"), stepwise.group_members("g"));
}

#[test]
fn end_to_end_session_against_coordinator() {
    // The whole exchange of one connection, with the socket taken away:
    // handshake, identify, map request, quit.
    match negotiate_line("POKE-ESCAPE_0.1.0\n") {
        Negotiation::Session(Handshake::Accepted(_)) => {}
        _ => panic!("the handshake must accept 0.1.0"),
    }
    assert_eq!(greeting_line(&Version::new(0, 1, 0)), "POKE-ESCAPE-SERVER_0.1.0\n");

    let mut co = Coordinator::new(store_with_forest());
    let mut session = Session::new();

    match session.step("identify alice\n") {
        SessionAction::SendIdentify(m) => {
            co.handle(&m);
        }
        _ => panic!("identify must be forwarded"),
    }

    match session.step("map forest\n") {
        SessionAction::QueryMap(m) => {
            let (target, reply) = co.handle(&m).unwrap();
            assert_eq!(target, "alice");
            let line = reply_line(&reply).unwrap();
            assert!(line.starts_with("map {\"name\":\"forest\""));
        }
        _ => panic!("map must be forwarded"),
    }

    let quit = session.step("quit\n");
    assert_eq!(immediate_line(&quit).unwrap(), "Bye\n");
    match quit {
        SessionAction::Quit(m) => {
            co.handle(&m);
        }
        _ => panic!("quit ends the session"),
    }
    assert!(co.client_room("alice").is_none());
}

#[test]
fn thread_pool_needs_a_worker() {
    assert!(ThreadPool::new(0).is_err());
    let pool = ThreadPool::new(8).unwrap();
    assert_eq!(pool.get_threads(), 8);
}

#[test]
fn thread_pool_hands_out_tasks_in_order() {
    let mut pool = ThreadPool::new(2).unwrap();
    assert_eq!(pool.next_ticket(), 0);
    let a = pool.execute().unwrap();
    let b = pool.execute().unwrap();
    assert_eq!(pool.queued(), 2);
    assert_eq!(pool.claim(), Some(a));
    assert_eq!(pool.claim(), Some(b));
    assert_eq!(pool.claim(), None);
}

#[test]
fn thread_pool_rejects_tasks_after_shutdown() {
    let mut pool = ThreadPool::new(1).unwrap();
    pool.execute().unwrap();
    pool.shutdown();
    assert!(pool.execute().is_err());
    // already queued work can still be claimed
    assert!(pool.claim().is_some());
}
