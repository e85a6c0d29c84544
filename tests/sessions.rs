use copodcast::{
    random_code, Application, Broadcast, ClientEvent, Command, Connection, Lifecycle, Outbox, Phase,
    PlaybackState, PlaybackStatus, RegistryError, Relay, Reply, SessionCode,
};

fn code_of(text: &str) -> SessionCode {
    SessionCode::from_letters(text.chars().collect()).expect("a valid code")
}

fn text_of(code: &SessionCode) -> String {
    code.letters().into_iter().collect()
}

#[test]
fn generated_codes_are_five_lowercase_letters() {
    for _ in 0..200 {
        let code = random_code();
        let text = text_of(&code);
        assert_eq!(text.chars().count(), 5);
        assert!(text.chars().all(|c| c.is_ascii_lowercase()));
    }
}

#[test]
fn codes_must_be_five_lowercase_letters() {
    assert!(SessionCode::from_letters("abcde".chars().collect()).is_some());
    assert!(SessionCode::from_letters("abcd".chars().collect()).is_none());
    assert!(SessionCode::from_letters("abcdef".chars().collect()).is_none());
    assert!(SessionCode::from_letters("abcdE".chars().collect()).is_none());
    assert!(SessionCode::from_letters("ab1de".chars().collect()).is_none());
    assert!(SessionCode::from_letters(Vec::new()).is_none());
}

#[test]
fn same_as_compares_letters() {
    assert!(code_of("abcde").same_as(&code_of("abcde")));
    assert!(!code_of("abcde").same_as(&code_of("abcdf")));
    assert!(code_of("qwert").duplicate().same_as(&code_of("qwert")));
}

#[test]
fn create_returns_a_fresh_code() {
    let mut app = Application::new();
    let code = app.create("ep1".to_string(), 0).expect("created");
    let text = text_of(&code);
    assert_eq!(text.len(), 5);
    assert!(text.chars().all(|c| c.is_ascii_lowercase()));
    assert_eq!(app.len(), 1);
    let snapshot = app.get(&code).expect("live");
    assert_eq!(snapshot.episode, "ep1");
    assert_eq!(snapshot.state.position, 0);
    assert_eq!(snapshot.state.status, PlaybackStatus::Paused);
    assert_eq!(app.lifecycle(&code), Ok(Lifecycle::Empty));
}

#[test]
fn live_sessions_have_distinct_codes() {
    let mut app = Application::new();
    let mut codes: Vec<String> = Vec::new();
    for i in 0..300u64 {
        let code = app.create(format!("ep{i}"), i).expect("created");
        codes.push(text_of(&code));
    }
    let mut sorted = codes.clone();
    sorted.sort();
    sorted.dedup();
    assert_eq!(sorted.len(), codes.len());
    assert_eq!(app.len(), 300);
}

#[test]
fn taken_code_is_not_inserted_twice() {
    let mut app = Application::new();
    assert!(app.insert_session(code_of("abcde"), "ep1".to_string(), 0));
    assert!(!app.insert_session(code_of("abcde"), "ep2".to_string(), 0));
    assert_eq!(app.len(), 1);
    assert_eq!(app.get(&code_of("abcde")).unwrap().episode, "ep1");
    assert!(app.contains(&code_of("abcde")));
    assert!(!app.contains(&code_of("zzzzz")));
}

#[test]
fn join_returns_paused_state_at_zero() {
    let mut app = Application::new();
    assert!(app.insert_session(code_of("abcde"), "ep1".to_string(), 10));
    let snapshot = app.join(&code_of("abcde"), 1).expect("joined");
    assert_eq!(snapshot.episode, "ep1");
    assert_eq!(snapshot.state.status, PlaybackStatus::Paused);
    assert_eq!(snapshot.state.position, 0);
    assert_eq!(snapshot.state.last_update, 10);
    assert_eq!(app.lifecycle(&code_of("abcde")), Ok(Lifecycle::Active));
}

#[test]
fn late_joiner_gets_current_state() {
    let mut app = Application::new();
    let code = code_of("abcde");
    app.insert_session(code.duplicate(), "ep1".to_string(), 0);
    app.join(&code, 1).unwrap();
    app.apply(&code, Command::Seek(5_000), 100).unwrap();
    app.apply(&code, Command::Play, 200).unwrap();
    let snapshot = app.join(&code, 2).unwrap();
    assert_eq!(
        snapshot.state,
        PlaybackState { position: 5_000, status: PlaybackStatus::Playing, last_update: 200 }
    );
    assert_eq!(app.get(&code).unwrap().state, snapshot.state);
}

#[test]
fn seek_is_relayed_to_the_other_participant() {
    let mut app = Application::new();
    let code = code_of("abcde");
    app.insert_session(code.duplicate(), "ep1".to_string(), 0);
    let mut a = Connection::new(1);
    let mut b = Connection::new(2);
    assert!(matches!(a.handle(&mut app, ClientEvent::Join(code.duplicate()), 0), Reply::Welcome(_)));
    assert!(matches!(b.handle(&mut app, ClientEvent::Join(code.duplicate()), 0), Reply::Welcome(_)));
    match a.handle(&mut app, ClientEvent::Message(Command::Seek(120)), 50) {
        Reply::Relay(broadcast) => {
            let mut to = broadcast.recipients.clone();
            to.sort();
            assert_eq!(to, vec![1, 2]);
            assert_eq!(broadcast.state.position, 120);
            assert_eq!(broadcast.state.status, PlaybackStatus::Paused);
        }
        other => panic!("expected a relay, got {other:?}"),
    }
}

#[test]
fn unknown_code_is_not_found() {
    let mut app = Application::new();
    app.create("ep1".to_string(), 0).unwrap();
    let zzzzz = code_of("zzzzz");
    if app.contains(&zzzzz) {
        app.remove(&zzzzz).unwrap();
    }
    assert_eq!(app.get(&zzzzz).unwrap_err(), RegistryError::NotFound);
    let mut conn = Connection::new(7);
    match conn.handle(&mut app, ClientEvent::Join(zzzzz), 0) {
        Reply::Close(e) => assert_eq!(e, RegistryError::NotFound),
        other => panic!("expected a close, got {other:?}"),
    }
    assert_eq!(conn.phase(), Phase::Closed);
}

#[test]
fn last_leave_reaps_the_session() {
    let mut app = Application::new();
    let code = code_of("abcde");
    app.insert_session(code.duplicate(), "ep1".to_string(), 0);
    app.join(&code, 1).unwrap();
    app.join(&code, 2).unwrap();
    assert_eq!(app.leave(&code, 1), Ok(false));
    assert_eq!(app.lifecycle(&code), Ok(Lifecycle::Active));
    assert_eq!(app.leave(&code, 2), Ok(true));
    assert_eq!(app.get(&code).unwrap_err(), RegistryError::NotFound);
    assert_eq!(app.leave(&code, 2), Err(RegistryError::NotFound));
    assert!(app.insert_session(code.duplicate(), "ep2".to_string(), 0));
}

#[test]
fn without_reaping_an_emptied_session_stays_empty() {
    let mut app = Application::new();
    app.set_reap_when_empty(false);
    let code = code_of("abcde");
    app.insert_session(code.duplicate(), "ep1".to_string(), 0);
    app.join(&code, 1).unwrap();
    assert_eq!(app.leave(&code, 1), Ok(false));
    assert_eq!(app.lifecycle(&code), Ok(Lifecycle::Empty));
    assert_eq!(app.remove(&code), Ok(()));
    assert_eq!(app.remove(&code), Err(RegistryError::NotFound));
}

#[test]
fn pause_freezes_the_interpolated_position() {
    let playing = PlaybackState { position: 1_000, status: PlaybackStatus::Playing, last_update: 500 };
    assert_eq!(playing.position_at(800), 1_300);
    assert_eq!(playing.position_at(400), 1_000);
    let paused = playing.apply(Command::Pause, 800);
    assert_eq!(paused, PlaybackState { position: 1_300, status: PlaybackStatus::Paused, last_update: 800 });
    assert_eq!(paused.position_at(5_000), 1_300);
    let near_end = PlaybackState { position: u64::MAX - 1, status: PlaybackStatus::Playing, last_update: 0 };
    assert_eq!(near_end.position_at(10), u64::MAX);
}

#[test]
fn commands_change_state_as_described() {
    let start = PlaybackState::initial(0);
    let played = start.apply(Command::Play, 10);
    assert_eq!(played, PlaybackState { position: 0, status: PlaybackStatus::Playing, last_update: 10 });
    let sought = played.apply(Command::Seek(42), 20);
    assert_eq!(sought, PlaybackState { position: 42, status: PlaybackStatus::Playing, last_update: 20 });
    assert_eq!(sought.apply(Command::Heartbeat, 99), sought);
}

#[test]
fn heartbeat_is_not_broadcast() {
    let mut app = Application::new();
    let code = code_of("abcde");
    app.insert_session(code.duplicate(), "ep1".to_string(), 0);
    app.join(&code, 1).unwrap();
    app.join(&code, 2).unwrap();
    assert!(app.apply(&code, Command::Heartbeat, 5).unwrap().is_none());
    let b = app.apply(&code, Command::Play, 6).unwrap().unwrap();
    let mut to = b.recipients.clone();
    to.sort();
    assert_eq!(to, vec![1, 2]);
    assert_eq!(app.apply(&zz(), Command::Play, 7).unwrap_err(), RegistryError::NotFound);
}

fn zz() -> SessionCode {
    code_of("zzzzz")
}

#[test]
fn malformed_payload_is_ignored() {
    let mut app = Application::new();
    let code = code_of("abcde");
    app.insert_session(code.duplicate(), "ep1".to_string(), 0);
    let mut conn = Connection::new(3);
    assert!(matches!(
        conn.handle(&mut app, ClientEvent::Malformed, 0),
        Reply::Ignore(RegistryError::InvalidMessage)
    ));
    assert!(matches!(
        conn.handle(&mut app, ClientEvent::Message(Command::Play), 0),
        Reply::Ignore(RegistryError::InvalidMessage)
    ));
    assert_eq!(conn.phase(), Phase::Connecting);
    conn.handle(&mut app, ClientEvent::Join(code.duplicate()), 0);
    assert_eq!(conn.phase(), Phase::Joined);
    assert!(matches!(
        conn.handle(&mut app, ClientEvent::Join(code.duplicate()), 0),
        Reply::Ignore(RegistryError::InvalidMessage)
    ));
}

#[test]
fn disconnect_leaves_once_and_closes() {
    let mut app = Application::new();
    let code = code_of("abcde");
    app.insert_session(code.duplicate(), "ep1".to_string(), 0);
    let mut a = Connection::new(1);
    let mut b = Connection::new(2);
    a.handle(&mut app, ClientEvent::Join(code.duplicate()), 0);
    b.handle(&mut app, ClientEvent::Join(code.duplicate()), 0);
    assert!(matches!(a.handle(&mut app, ClientEvent::Disconnected, 1), Reply::Quiet));
    assert_eq!(a.phase(), Phase::Closed);
    assert!(matches!(a.handle(&mut app, ClientEvent::Message(Command::Play), 2), Reply::Quiet));
    match b.handle(&mut app, ClientEvent::Message(Command::Play), 3) {
        Reply::Relay(broadcast) => assert_eq!(broadcast.recipients, vec![2]),
        other => panic!("expected a relay, got {other:?}"),
    }
    b.handle(&mut app, ClientEvent::Disconnected, 4);
    assert_eq!(app.get(&code).unwrap_err(), RegistryError::NotFound);
}

#[test]
fn full_outbox_drops_the_oldest() {
    let mut outbox = Outbox::new(2);
    let s = |p: u64| PlaybackState { position: p, status: PlaybackStatus::Paused, last_update: p };
    outbox.offer(s(1));
    outbox.offer(s(2));
    outbox.offer(s(3));
    assert_eq!(outbox.len(), 2);
    assert_eq!(outbox.capacity(), 2);
    assert_eq!(outbox.latest(), Some(s(3)));
    assert_eq!(outbox.take_next(), Some(s(2)));
    assert_eq!(outbox.take_next(), Some(s(3)));
    assert_eq!(outbox.take_next(), None);
    assert_eq!(outbox.latest(), None);
}

#[test]
fn joined_connections_converge() {
    let mut app = Application::new();
    let code = code_of("abcde");
    app.insert_session(code.duplicate(), "ep1".to_string(), 0);
    let ids = [1u64, 2, 3];
    let mut shown: Vec<PlaybackState> = Vec::new();
    let mut outboxes: Vec<Outbox> = vec![Outbox::new(1), Outbox::new(2), Outbox::new(8)];
    for id in ids {
        shown.push(app.join(&code, id).unwrap().state);
    }
    let script = [
        (1u64, Command::Play, 10u64),
        (2, Command::Seek(700), 20),
        (3, Command::Heartbeat, 25),
        (1, Command::Pause, 90),
        (3, Command::Seek(55), 95),
        (2, Command::Play, 100),
    ];
    for (_origin, command, now) in script {
        if let Some(b) = app.apply(&code, command, now).unwrap() {
            for (k, id) in ids.iter().enumerate() {
                if b.recipients.contains(id) {
                    outboxes[k].offer(b.state);
                }
            }
        }
    }
    for k in 0..ids.len() {
        while let Some(s) = outboxes[k].take_next() {
            shown[k] = s;
        }
    }
    let canonical = app.get(&code).unwrap().state;
    assert_eq!(canonical, PlaybackState { position: 55, status: PlaybackStatus::Playing, last_update: 100 });
    for s in shown {
        assert_eq!(s, canonical);
    }
}

#[test]
fn relay_offers_only_to_recipients() {
    let mut relay = Relay::new();
    assert!(relay.register(1, 1));
    assert!(relay.register(2, 4));
    assert!(relay.register(3, 4));
    assert!(!relay.register(2, 4));
    let s = |p: u64| PlaybackState { position: p, status: PlaybackStatus::Playing, last_update: p };
    relay.deliver(&Broadcast { state: s(10), recipients: vec![2, 3] });
    relay.deliver(&Broadcast { state: s(20), recipients: vec![1, 3] });
    relay.deliver(&Broadcast { state: s(30), recipients: vec![1, 2] });
    assert_eq!(relay.take_next(1), Some(s(30)));
    assert_eq!(relay.take_next(1), None);
    assert_eq!(relay.take_next(2), Some(s(10)));
    assert_eq!(relay.take_next(2), Some(s(30)));
    assert_eq!(relay.take_next(3), Some(s(10)));
    assert_eq!(relay.take_next(3), Some(s(20)));
    assert_eq!(relay.take_next(3), None);
    assert!(relay.unregister(3));
    assert!(!relay.unregister(3));
    assert_eq!(relay.take_next(3), None);
    assert_eq!(relay.take_next(9), None);
}

#[test]
fn decode_reads_command_words() {
    assert_eq!(Command::decode(b"play", None), Ok(Command::Play));
    assert_eq!(Command::decode(b"pause", Some(3)), Ok(Command::Pause));
    assert_eq!(Command::decode(b"seek", Some(120)), Ok(Command::Seek(120)));
    assert_eq!(Command::decode(b"heartbeat", None), Ok(Command::Heartbeat));
    assert_eq!(Command::decode(b"seek", None), Err(RegistryError::InvalidMessage));
    assert_eq!(Command::decode(b"state", None), Err(RegistryError::InvalidMessage));
    assert_eq!(Command::decode(b"Play", None), Err(RegistryError::InvalidMessage));
    assert_eq!(Command::decode(b"", None), Err(RegistryError::InvalidMessage));
}

#[test]
fn first_free_takes_the_first_unused_candidate() {
    let mut app = Application::new();
    let drawn = vec![code_of("abcde"), code_of("zzzzz")];
    assert_eq!(text_of(&app.first_free(&drawn).unwrap()), "abcde");
    assert!(app.insert_session(code_of("abcde"), "ep1".to_string(), 0));
    assert_eq!(text_of(&app.first_free(&drawn).unwrap()), "zzzzz");
    assert!(app.insert_session(code_of("zzzzz"), "ep2".to_string(), 0));
    assert_eq!(app.first_free(&drawn).unwrap_err(), RegistryError::CapacityExhausted);
    assert_eq!(app.first_free(&Vec::new()).unwrap_err(), RegistryError::CapacityExhausted);
    app.remove(&code_of("abcde")).unwrap();
    assert_eq!(text_of(&app.first_free(&drawn).unwrap()), "abcde");
}

#[test]
fn generate_id_on_a_fresh_registry_succeeds() {
    let app = Application::new();
    let code = app.generate_id().expect("free code");
    assert_eq!(text_of(&code).len(), 5);
}

#[test]
fn a_connection_joins_one_session_at_a_time() {
    let mut app = Application::new();
    app.insert_session(code_of("abcde"), "ep1".to_string(), 0);
    app.insert_session(code_of("fghij"), "ep2".to_string(), 0);
    app.join(&code_of("abcde"), 1).unwrap();
    assert_eq!(app.join(&code_of("fghij"), 1).unwrap_err(), RegistryError::InvalidMessage);
    assert_eq!(app.lifecycle(&code_of("fghij")), Ok(Lifecycle::Empty));
    assert!(app.join(&code_of("abcde"), 1).is_ok());
    assert_eq!(app.join(&code_of("qqqqq"), 1).unwrap_err(), RegistryError::NotFound);
}

#[test]
fn a_stranger_leaving_does_not_reap() {
    let mut app = Application::new();
    app.insert_session(code_of("abcde"), "ep1".to_string(), 0);
    assert_eq!(app.leave(&code_of("abcde"), 9), Ok(false));
    assert!(app.contains(&code_of("abcde")));
}
