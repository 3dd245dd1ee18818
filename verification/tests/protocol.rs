use std::hash::{Hash, Hasher};

use partynet::actor::{CommandKind, PublishOutcome, SwarmActor};
use partynet::flow::{begin_cleanup, switch_state_after_cleanup, AppState, CleanupConfig, GameState};
use partynet::ident::{player_id_round_trip, Player, PlayerId};
use partynet::manager::{NetworkAddress, NetworkCommand, NetworkEvent, NetworkManager};
use partynet::party::Party;
use partynet::protocol::{
    create_lobby, handle_client_event, handle_host_event, handle_join_lobby_event,
    handle_join_lobby_events, handle_lobby_ui_event, join_lobby, receive_chat_message,
    setup_lobby, unsubscribe_all_topics, ChatLog, LobbyUIEvent,
};
use partynet::topic::NetworkTopic;
use partynet::wire::{
    decode_party, decode_player, encode_party, encode_player, party_wire_round_trip,
    player_wire_round_trip, WireError,
};

fn fresh_peer() -> libp2p::PeerId {
    libp2p::PeerId::random()
}

fn player(name: &str) -> Player {
    Player { id: PlayerId::new(fresh_peer()), name: name.to_string() }
}

fn hash_of(id: &PlayerId) -> u64 {
    let mut hasher = std::collections::hash_map::DefaultHasher::new();
    id.hash(&mut hasher);
    hasher.finish()
}

fn chunk(data: &[u8]) -> Vec<u8> {
    let mut out = (data.len() as u64).to_le_bytes().to_vec();
    out.extend_from_slice(data);
    out
}

// ---------------------------------------------------------------------
// Identities
// ---------------------------------------------------------------------

#[test]
fn player_id_encode_decode_round_trip() {
    let id = PlayerId::new(fresh_peer());
    let text = id.encode();
    let back = PlayerId::decode(text.as_str()).expect("own encoding must decode");
    assert!(back == id);
    assert_eq!(hash_of(&back), hash_of(&id));
    assert_eq!(back.encode(), text);
}

#[test]
fn player_id_round_trip_law_runs() {
    let id = PlayerId::new(fresh_peer());
    let back = player_id_round_trip(id);
    assert!(back == id);
}

#[test]
fn player_id_decode_rejects_garbage() {
    assert!(PlayerId::decode("").is_none());
    assert!(PlayerId::decode("not base58 at all!!!").is_none());
    assert!(PlayerId::decode("0OIl").is_none());
}

#[test]
fn player_id_from_peer() {
    let peer = fresh_peer();
    let a = PlayerId::new(peer);
    let b = PlayerId::from(peer);
    assert!(a == b);
    assert_eq!(a.peer_id(), peer);
}

// ---------------------------------------------------------------------
// Wire codec
// ---------------------------------------------------------------------

#[test]
fn player_message_round_trips() {
    let pl = player("Alice");
    let bytes = encode_player(&pl);
    let back = decode_player(bytes.as_slice()).expect("own encoding must decode");
    assert!(back.id == pl.id);
    assert_eq!(back.name, pl.name);
    let again = player_wire_round_trip(&pl);
    assert!(again.id == pl.id);
    assert_eq!(again.name, pl.name);
}

#[test]
fn player_message_rejects_malformed() {
    assert!(matches!(decode_player(&[]), Err(WireError::Malformed)));
    assert!(matches!(decode_player(&[1, 2, 3]), Err(WireError::Malformed)));
    // A single text chunk without the name field.
    let only_id = chunk("QmX".as_bytes());
    assert!(matches!(decode_player(only_id.as_slice()), Err(WireError::Malformed)));
    // Trailing bytes after a full record.
    let pl = player("Alice");
    let mut bytes = encode_player(&pl);
    bytes.push(0);
    assert!(matches!(decode_player(bytes.as_slice()), Err(WireError::Malformed)));
    // A name field that is not UTF-8.
    let mut bad_name = chunk(player("x").id.encode().as_bytes());
    bad_name.extend_from_slice(&chunk(&[0xff, 0xfe]));
    assert!(matches!(decode_player(bad_name.as_slice()), Err(WireError::Malformed)));
}

#[test]
fn player_message_rejects_unknown_peer() {
    let mut bytes = chunk("definitely not a peer id".as_bytes());
    bytes.extend_from_slice(&chunk("Bob".as_bytes()));
    assert!(matches!(decode_player(bytes.as_slice()), Err(WireError::UnknownPeer)));
}

#[test]
fn party_snapshot_round_trips() {
    let host = player("Hank");
    let host_id = host.id;
    let mut party = Party::new(host);
    party.insert(player("Alice"));
    party.insert(player("Bob"));
    let bytes = encode_party(&party);
    let back = decode_party(bytes.as_slice()).expect("own encoding must decode");
    assert!(back.host_id() == host_id);
    assert_eq!(back.len(), 3);
    for pl in party.players() {
        let entry = back.get(&pl.id).expect("member must survive the round trip");
        assert_eq!(entry.name, pl.name);
    }
    let again = party_wire_round_trip(&party);
    assert_eq!(again.len(), 3);
    assert!(again.host_id() == host_id);
}

#[test]
fn player_encoding_has_the_documented_layout() {
    let pl = player("Zoe");
    let bytes = encode_player(&pl);
    let mut expected = chunk(pl.id.encode().as_bytes());
    expected.extend_from_slice(&chunk("Zoe".as_bytes()));
    assert_eq!(bytes, expected);
}

#[test]
fn party_encoding_has_the_documented_layout() {
    let host = player("Hank");
    let mut party = Party::new(host);
    party.insert(player("Alice"));
    let bytes = encode_party(&party);
    let mut expected = chunk(party.host_id().encode().as_bytes());
    expected.extend_from_slice(&2u64.to_le_bytes());
    for member in party.players() {
        expected.extend_from_slice(&chunk(member.id.encode().as_bytes()));
        expected.extend_from_slice(&chunk(member.name.as_bytes()));
    }
    assert_eq!(bytes, expected);
}

#[test]
fn party_snapshot_rejects_missing_host() {
    let absent_host = PlayerId::new(fresh_peer());
    let member = player("Solo");
    let mut bytes = chunk(absent_host.encode().as_bytes());
    bytes.extend_from_slice(&1u64.to_le_bytes());
    bytes.extend_from_slice(&chunk(member.id.encode().as_bytes()));
    bytes.extend_from_slice(&chunk("Solo".as_bytes()));
    assert!(matches!(decode_party(bytes.as_slice()), Err(WireError::HostMissing)));
}

#[test]
fn party_snapshot_rejects_duplicate_member() {
    let host = player("Hank");
    let record = {
        let mut r = chunk(host.id.encode().as_bytes());
        r.extend_from_slice(&chunk("Hank".as_bytes()));
        r
    };
    let mut bytes = chunk(host.id.encode().as_bytes());
    bytes.extend_from_slice(&2u64.to_le_bytes());
    bytes.extend_from_slice(&record);
    bytes.extend_from_slice(&record);
    assert!(matches!(decode_party(bytes.as_slice()), Err(WireError::DuplicateMember)));
}

#[test]
fn party_snapshot_rejects_malformed() {
    assert!(matches!(decode_party(&[]), Err(WireError::Malformed)));
    let host = player("Hank");
    // Member count claims one record, none follows.
    let mut bytes = chunk(host.id.encode().as_bytes());
    bytes.extend_from_slice(&1u64.to_le_bytes());
    assert!(matches!(decode_party(bytes.as_slice()), Err(WireError::Malformed)));
    // Unparseable member identity.
    let mut bytes = chunk(host.id.encode().as_bytes());
    bytes.extend_from_slice(&1u64.to_le_bytes());
    bytes.extend_from_slice(&chunk("not a peer".as_bytes()));
    bytes.extend_from_slice(&chunk("Bob".as_bytes()));
    assert!(matches!(decode_party(bytes.as_slice()), Err(WireError::UnknownPeer)));
}

// ---------------------------------------------------------------------
// Party
// ---------------------------------------------------------------------

#[test]
fn party_host_entry_is_present_through_insertions() {
    let host = player("Hank");
    let host_id = host.id;
    let mut party = Party::new(host);
    assert!(party.contains(&host_id));
    for name in ["a", "b", "c", "d"] {
        party.insert(player(name));
        assert!(party.contains(&host_id));
        assert!(party.len() >= 1);
    }
    assert_eq!(party.len(), 5);
}

#[test]
fn party_duplicate_insert_overwrites() {
    let host = player("Hank");
    let mut party = Party::new(host);
    let joiner = player("Bob");
    let joiner_id = joiner.id;
    party.insert(joiner);
    assert_eq!(party.len(), 2);
    party.insert(Player { id: joiner_id, name: "Robert".to_string() });
    assert_eq!(party.len(), 2);
    assert_eq!(party.get(&joiner_id).unwrap().name, "Robert");
}

#[test]
fn party_remove_returns_entry() {
    let host = player("Hank");
    let host_id = host.id;
    let mut party = Party::new(host);
    let joiner = player("Bob");
    let joiner_id = joiner.id;
    party.insert(joiner);
    let removed = party.remove(&joiner_id).expect("member must be removable");
    assert!(removed.id == joiner_id);
    assert_eq!(removed.name, "Bob");
    assert_eq!(party.len(), 1);
    assert!(party.remove(&joiner_id).is_none());
    assert!(party.contains(&host_id));
}

// ---------------------------------------------------------------------
// Manager: ordering and commands
// ---------------------------------------------------------------------

#[test]
fn drained_events_preserve_arrival_order() {
    let mut manager = NetworkManager::new(fresh_peer());
    let peers: Vec<libp2p::PeerId> = (0..5).map(|_| fresh_peer()).collect();
    for p in &peers {
        manager.push_event(NetworkEvent::ConnectionEstablished { peer: *p });
    }
    let drained = manager.drain_events();
    assert_eq!(drained.len(), 5);
    for (i, ev) in drained.iter().enumerate() {
        match ev {
            NetworkEvent::ConnectionEstablished { peer } => assert_eq!(*peer, peers[i]),
            _ => panic!("unexpected event kind"),
        }
    }
    assert!(manager.drain_events().is_empty());
}

#[test]
fn commands_are_queued_in_issue_order() {
    let mut manager = NetworkManager::new(fresh_peer());
    let target = fresh_peer();
    manager.subscribe(NetworkTopic::new("chat"));
    manager.publish(NetworkTopic::new("chat"), b"hi".to_vec());
    manager.dial_peer(target);
    manager.unsubscribe(NetworkTopic::new("chat"));
    let commands = manager.take_commands();
    assert_eq!(commands.len(), 4);
    assert!(matches!(&commands[0], NetworkCommand::Subscribe { topic } if topic.as_str() == "chat"));
    assert!(
        matches!(&commands[1], NetworkCommand::Publish { topic, data } if topic.as_str() == "chat" && data == b"hi")
    );
    assert!(matches!(&commands[2], NetworkCommand::DialPeer { peer } if *peer == target));
    assert!(matches!(&commands[3], NetworkCommand::Unsubscribe { topic } if topic.as_str() == "chat"));
    assert!(manager.take_commands().is_empty());
}

#[test]
fn network_address_validates_before_dispatch() {
    assert!(NetworkAddress::parse("/ip4/0.0.0.0/tcp/0").is_some());
    let addr = NetworkAddress::parse("/ip4/127.0.0.1/tcp/4001").unwrap();
    assert_eq!(addr.as_str(), "/ip4/127.0.0.1/tcp/4001");
    assert!(NetworkAddress::parse("not an address").is_none());
    assert!(NetworkAddress::parse("/ip4/not-an-ip").is_none());
}

#[test]
fn topics_compare_by_name() {
    assert!(NetworkTopic::new("chat") == NetworkTopic::new("chat"));
    assert!(NetworkTopic::new("chat") != NetworkTopic::new("joined"));
    assert!(NetworkTopic::new("chat").routes(&"chat".to_string()));
    assert!(!NetworkTopic::new("chat").routes(&"joined".to_string()));
}

// ---------------------------------------------------------------------
// Lobby state machine
// ---------------------------------------------------------------------

#[test]
fn cleanup_consumes_pending_destination() {
    let mut config = CleanupConfig::new();
    let mut state = GameState::new(AppState::InLobby);
    begin_cleanup(&mut config, &mut state, AppState::MainMenu);
    assert_eq!(state.current(), AppState::Cleanup);
    assert_eq!(config.next_state_after_cleanup, Some(AppState::MainMenu));
    switch_state_after_cleanup(&mut config, &mut state);
    assert_eq!(state.current(), AppState::MainMenu);
    assert_eq!(config.next_state_after_cleanup, None);
}

#[test]
fn switch_outside_cleanup_does_nothing() {
    let mut config = CleanupConfig::new();
    let mut state = GameState::new(AppState::MainMenu);
    switch_state_after_cleanup(&mut config, &mut state);
    assert_eq!(state.current(), AppState::MainMenu);
    assert_eq!(config.next_state_after_cleanup, None);
}

// ---------------------------------------------------------------------
// Protocol scenarios
// ---------------------------------------------------------------------

#[test]
fn malformed_accept_routes_to_main_menu() {
    let local = fresh_peer();
    let mut manager = NetworkManager::new(local);
    let mut config = CleanupConfig::new();
    let mut state = GameState::new(AppState::JoiningLobby);
    let mut party = Party::new(Player { id: PlayerId::new(local), name: "Cli".to_string() });

    let event = NetworkEvent::Message {
        topic: "join_accepted".to_string(),
        source: None,
        data: vec![0xde, 0xad, 0xbe, 0xef],
    };
    handle_join_lobby_event(&mut party, &mut config, &mut state, &mut manager, &event);
    assert_eq!(state.current(), AppState::Cleanup);
    assert_eq!(config.next_state_after_cleanup, Some(AppState::MainMenu));

    switch_state_after_cleanup(&mut config, &mut state);
    assert_eq!(state.current(), AppState::MainMenu);
    assert_ne!(state.current(), AppState::JoiningLobby);
}

#[test]
fn rejection_message_routes_to_main_menu() {
    let local = fresh_peer();
    let mut manager = NetworkManager::new(local);
    let mut config = CleanupConfig::new();
    let mut state = GameState::new(AppState::JoiningLobby);
    let mut party = Party::new(Player { id: PlayerId::new(local), name: "Cli".to_string() });

    let event = NetworkEvent::Message {
        topic: "join_rejected".to_string(),
        source: None,
        data: b"malformed message payload".to_vec(),
    };
    handle_join_lobby_event(&mut party, &mut config, &mut state, &mut manager, &event);
    assert_eq!(state.current(), AppState::Cleanup);
    assert_eq!(config.next_state_after_cleanup, Some(AppState::MainMenu));
}

#[test]
fn unreachable_address_routes_to_main_menu() {
    let local = fresh_peer();
    let mut manager = NetworkManager::new(local);
    let mut config = CleanupConfig::new();
    let mut state = GameState::new(AppState::JoiningLobby);
    let mut party = Party::new(Player { id: PlayerId::new(local), name: "Cli".to_string() });

    let events = vec![NetworkEvent::UnreachableAddr {
        address: "/ip4/10.0.0.9/tcp/7".to_string(),
        error: "timed out".to_string(),
    }];
    handle_join_lobby_events(&mut party, &mut config, &mut state, &mut manager, &events);
    assert_eq!(state.current(), AppState::Cleanup);
    assert_eq!(config.next_state_after_cleanup, Some(AppState::MainMenu));
}

#[test]
fn host_and_client_complete_a_join() {
    // Host H creates a party of itself and subscribes to join requests.
    let host_peer = fresh_peer();
    let mut host_manager = NetworkManager::new(host_peer);
    let mut host_config = CleanupConfig::new();
    let mut host_state = GameState::new(AppState::MainMenu);
    let listen = NetworkAddress::parse("/ip4/0.0.0.0/tcp/0").unwrap();
    let mut host_party = create_lobby(
        &mut host_config,
        &mut host_state,
        &mut host_manager,
        "Hank".to_string(),
        listen,
    );
    assert_eq!(host_party.len(), 1);
    assert_eq!(host_config.next_state_after_cleanup, Some(AppState::InLobby));
    switch_state_after_cleanup(&mut host_config, &mut host_state);
    assert_eq!(host_state.current(), AppState::InLobby);
    let host_commands = host_manager.take_commands();
    assert!(matches!(&host_commands[0], NetworkCommand::ListenOn { .. }));
    assert!(
        matches!(&host_commands[1], NetworkCommand::Subscribe { topic } if topic.as_str() == "join_request")
    );

    // Client C requests to join with name Bob.
    let client_peer = fresh_peer();
    let client = Player { id: PlayerId::new(client_peer), name: "Bob".to_string() };
    let request_payload = encode_player(&client);

    let request = NetworkEvent::Message {
        topic: "join_request".to_string(),
        source: Some(client_peer),
        data: request_payload.clone(),
    };
    handle_host_event(&mut host_party, &host_state, &host_config, &mut host_manager, &request);

    // The host's party now holds H and C.
    assert_eq!(host_party.len(), 2);
    assert!(host_party.contains(&PlayerId::new(host_peer)));
    assert!(host_party.contains(&PlayerId::new(client_peer)));
    assert_eq!(host_party.get(&PlayerId::new(client_peer)).unwrap().name, "Bob");

    // It published the full snapshot and the joined player.
    let published = host_manager.take_commands();
    assert_eq!(published.len(), 2);
    let snapshot = match &published[0] {
        NetworkCommand::Publish { topic, data } if topic.as_str() == "join_accepted" => {
            data.clone()
        },
        other => panic!("expected a join_accepted publish, got {:?}", kind_name(other)),
    };
    let echoed = match &published[1] {
        NetworkCommand::Publish { topic, data } if topic.as_str() == "joined" => data.clone(),
        other => panic!("expected a joined publish, got {:?}", kind_name(other)),
    };
    assert_eq!(echoed, request_payload);
    let decoded_snapshot = decode_party(snapshot.as_slice()).unwrap();
    assert_eq!(decoded_snapshot.len(), 2);
    assert!(decoded_snapshot.host_id() == PlayerId::new(host_peer));

    // A third peer D, already in the lobby, inserts C from the joined
    // message alone, without the full snapshot.
    let third_peer = fresh_peer();
    let mut third_party = Party::new(Player { id: PlayerId::new(host_peer), name: "Hank".to_string() });
    third_party.insert(Player { id: PlayerId::new(third_peer), name: "Dora".to_string() });
    let third_manager = NetworkManager::new(third_peer);
    let third_state = GameState::new(AppState::InLobby);
    let third_config = CleanupConfig::new();
    let joined = NetworkEvent::Message {
        topic: "joined".to_string(),
        source: Some(host_peer),
        data: echoed,
    };
    handle_client_event(&mut third_party, &third_state, &third_config, &third_manager, &joined);
    assert_eq!(third_party.len(), 3);
    assert_eq!(third_party.get(&PlayerId::new(client_peer)).unwrap().name, "Bob");

    // The joining client adopts the snapshot and enters the lobby.
    let mut client_manager = NetworkManager::new(client_peer);
    let mut client_config = CleanupConfig::new();
    let mut client_state = GameState::new(AppState::MainMenu);
    let listen = NetworkAddress::parse("/ip4/0.0.0.0/tcp/0").unwrap();
    let dial = NetworkAddress::parse("/ip4/127.0.0.1/tcp/4001").unwrap();
    let mut client_party = join_lobby(
        &mut client_config,
        &mut client_state,
        &mut client_manager,
        "Bob".to_string(),
        dial,
        listen,
    );
    switch_state_after_cleanup(&mut client_config, &mut client_state);
    assert_eq!(client_state.current(), AppState::JoiningLobby);
    client_manager.take_commands();

    let connected = NetworkEvent::ConnectionEstablished { peer: host_peer };
    handle_join_lobby_event(
        &mut client_party,
        &mut client_config,
        &mut client_state,
        &mut client_manager,
        &connected,
    );
    let sent = client_manager.take_commands();
    assert_eq!(sent.len(), 1);
    assert!(
        matches!(&sent[0], NetworkCommand::Publish { topic, data } if topic.as_str() == "join_request" && *data == request_payload)
    );

    let accepted = NetworkEvent::Message {
        topic: "join_accepted".to_string(),
        source: Some(host_peer),
        data: snapshot,
    };
    handle_join_lobby_event(
        &mut client_party,
        &mut client_config,
        &mut client_state,
        &mut client_manager,
        &accepted,
    );
    assert_eq!(client_state.current(), AppState::InLobby);
    assert_eq!(client_party.len(), 2);
    assert!(client_party.host_id() == PlayerId::new(host_peer));
    assert_eq!(client_party.get(&PlayerId::new(client_peer)).unwrap().name, "Bob");
    let handshake = client_manager.take_commands();
    assert_eq!(handshake.len(), 3);
    assert!(
        matches!(&handshake[0], NetworkCommand::Unsubscribe { topic } if topic.as_str() == "join_accepted")
    );
    assert!(
        matches!(&handshake[1], NetworkCommand::Unsubscribe { topic } if topic.as_str() == "join_rejected")
    );
    assert!(
        matches!(&handshake[2], NetworkCommand::Subscribe { topic } if topic.as_str() == "joined")
    );
}

fn kind_name(command: &NetworkCommand) -> &'static str {
    match command {
        NetworkCommand::ListenOn { .. } => "ListenOn",
        NetworkCommand::RemoveListener { .. } => "RemoveListener",
        NetworkCommand::DialAddr { .. } => "DialAddr",
        NetworkCommand::DialPeer { .. } => "DialPeer",
        NetworkCommand::Subscribe { .. } => "Subscribe",
        NetworkCommand::Unsubscribe { .. } => "Unsubscribe",
        NetworkCommand::Publish { .. } => "Publish",
    }
}

#[test]
fn duplicate_join_request_overwrites_name() {
    let host_peer = fresh_peer();
    let mut manager = NetworkManager::new(host_peer);
    let config = CleanupConfig::new();
    let state = GameState::new(AppState::InLobby);
    let mut party = Party::new(Player { id: PlayerId::new(host_peer), name: "Hank".to_string() });

    let joiner_id = PlayerId::new(fresh_peer());
    for name in ["Bob", "Bobby"] {
        let request = NetworkEvent::Message {
            topic: "join_request".to_string(),
            source: None,
            data: encode_player(&Player { id: joiner_id, name: name.to_string() }),
        };
        handle_host_event(&mut party, &state, &config, &mut manager, &request);
    }
    assert_eq!(party.len(), 2);
    assert_eq!(party.get(&joiner_id).unwrap().name, "Bobby");
}

#[test]
fn host_rejects_malformed_join_request() {
    let host_peer = fresh_peer();
    let mut manager = NetworkManager::new(host_peer);
    let config = CleanupConfig::new();
    let state = GameState::new(AppState::InLobby);
    let mut party = Party::new(Player { id: PlayerId::new(host_peer), name: "Hank".to_string() });

    let request = NetworkEvent::Message {
        topic: "join_request".to_string(),
        source: None,
        data: vec![1, 2, 3],
    };
    handle_host_event(&mut party, &state, &config, &mut manager, &request);
    assert_eq!(party.len(), 1);
    let published = manager.take_commands();
    assert_eq!(published.len(), 1);
    assert!(
        matches!(&published[0], NetworkCommand::Publish { topic, data } if topic.as_str() == "join_rejected" && data == b"malformed message payload")
    );
}

#[test]
fn non_host_ignores_join_requests() {
    let host_peer = fresh_peer();
    let local_peer = fresh_peer();
    let mut manager = NetworkManager::new(local_peer);
    let config = CleanupConfig::new();
    let state = GameState::new(AppState::InLobby);
    let mut party = Party::new(Player { id: PlayerId::new(host_peer), name: "Hank".to_string() });

    let request = NetworkEvent::Message {
        topic: "join_request".to_string(),
        source: None,
        data: encode_player(&player("Bob")),
    };
    handle_host_event(&mut party, &state, &config, &mut manager, &request);
    assert_eq!(party.len(), 1);
    assert!(manager.take_commands().is_empty());
}

#[test]
fn chat_messages_from_members_are_logged() {
    let host_peer = fresh_peer();
    let sender_peer = fresh_peer();
    let state = GameState::new(AppState::InLobby);
    let mut party = Party::new(Player { id: PlayerId::new(host_peer), name: "Hank".to_string() });
    party.insert(Player { id: PlayerId::new(sender_peer), name: "Bob".to_string() });
    let mut log = ChatLog::new();

    let hello = NetworkEvent::Message {
        topic: "chat".to_string(),
        source: Some(sender_peer),
        data: b"hello there".to_vec(),
    };
    receive_chat_message(&party, &state, &mut log, &hello);
    assert_eq!(log.entries().len(), 1);
    assert_eq!(log.entries()[0].player_name, "Bob");
    assert_eq!(log.entries()[0].text, "hello there");

    // A stranger's message is ignored.
    let stranger = NetworkEvent::Message {
        topic: "chat".to_string(),
        source: Some(fresh_peer()),
        data: b"let me in".to_vec(),
    };
    receive_chat_message(&party, &state, &mut log, &stranger);
    assert_eq!(log.entries().len(), 1);

    // An unsourced message is ignored.
    let unsourced = NetworkEvent::Message {
        topic: "chat".to_string(),
        source: None,
        data: b"anon".to_vec(),
    };
    receive_chat_message(&party, &state, &mut log, &unsourced);
    assert_eq!(log.entries().len(), 1);
}

#[test]
fn lobby_intents_publish_and_leave() {
    let local = fresh_peer();
    let mut manager = NetworkManager::new(local);
    let mut config = CleanupConfig::new();
    let mut state = GameState::new(AppState::InLobby);
    let party = Party::new(Player { id: PlayerId::new(local), name: "Hank".to_string() });

    let send = LobbyUIEvent::SendChatMessage("hi all".to_string());
    handle_lobby_ui_event(&party, &mut config, &mut state, &mut manager, &send);
    let published = manager.take_commands();
    assert!(
        matches!(&published[0], NetworkCommand::Publish { topic, data } if topic.as_str() == "chat" && data == b"hi all")
    );

    handle_lobby_ui_event(&party, &mut config, &mut state, &mut manager, &LobbyUIEvent::Leave);
    assert_eq!(state.current(), AppState::Cleanup);
    assert_eq!(config.next_state_after_cleanup, Some(AppState::MainMenu));
}

#[test]
fn lobby_subscriptions_follow_entry_and_exit() {
    let mut manager = NetworkManager::new(fresh_peer());
    setup_lobby(&mut manager);
    let entered = manager.take_commands();
    assert_eq!(entered.len(), 1);
    assert!(matches!(&entered[0], NetworkCommand::Subscribe { topic } if topic.as_str() == "chat"));

    unsubscribe_all_topics(&mut manager);
    let left = manager.take_commands();
    let expected = ["chat", "joined", "join_accepted", "join_rejected", "join_request"];
    assert_eq!(left.len(), expected.len());
    for (command, name) in left.iter().zip(expected.iter()) {
        assert!(matches!(command, NetworkCommand::Unsubscribe { topic } if topic.as_str() == *name));
    }
}

// ---------------------------------------------------------------------
// Actor policy
// ---------------------------------------------------------------------

#[test]
fn insufficient_peers_is_tolerated() {
    let mut actor = SwarmActor::new();
    assert!(actor.is_alive());
    actor.absorb_publish_outcome(&PublishOutcome::InsufficientPeers);
    assert!(actor.is_alive());
    actor.absorb_publish_outcome(&PublishOutcome::Delivered);
    assert!(actor.is_alive());
    // A subsequent unrelated command is still serviced.
    let command = NetworkCommand::Subscribe { topic: NetworkTopic::new("chat") };
    assert_eq!(partynet::actor::command_kind(&command), CommandKind::Subscribe);
    actor.absorb_publish_outcome(&PublishOutcome::Failed { reason: "closed".to_string() });
    assert!(!actor.is_alive());
}

#[test]
fn only_listen_carries_a_reply() {
    let listen = NetworkCommand::ListenOn {
        address: NetworkAddress::parse("/ip4/0.0.0.0/tcp/0").unwrap(),
    };
    assert_eq!(partynet::actor::command_kind(&listen), CommandKind::ListenOn);
    let others = [
        partynet::actor::command_kind(&NetworkCommand::Subscribe {
            topic: NetworkTopic::new("chat"),
        }),
        partynet::actor::command_kind(&NetworkCommand::DialPeer { peer: fresh_peer() }),
        partynet::actor::command_kind(&NetworkCommand::Publish {
            topic: NetworkTopic::new("chat"),
            data: vec![],
        }),
    ];
    for kind in others {
        assert_ne!(kind, CommandKind::ListenOn);
    }
}
