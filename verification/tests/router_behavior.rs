// Tests of the router: authorization, events, pending sends, the directory,
// and the pending-link session.

use spider::directory::DirectoryEntry;
use spider::id::SpiderId2048;
use spider::message::{Message, RouterMessage, UiMessage};
use spider::pending::{PendingLinkControl, PendingLinkSession, PendingOutcome};
use spider::relation::{Relation, Role};
use spider::cipher::{chacha_open, chacha_seal, rsa_decrypt_pkcs1v15, rsa_encrypt_pkcs1v15};
use spider::keys::{rsa_generate, rsa_priv_to_pkcs8_der, rsa_pub_der};
use spider::link_protocol::{
    check_introduction, is_key_request, key_request_payload, listener_first_frame,
    read_stream_config, stream_config_bytes, FirstFrameStep,
};
use spider::chord_cache::{ChordAddrCache, CHORD_ADDR_CAPACITY};
use spider::router::{next_chord_port, LinkDecision, PendingStep, RouterState};

fn rel(fill: u8, role: Role) -> Relation {
    Relation { role, id: SpiderId2048::from_bytes(vec![fill; 294]) }
}

fn event_msg(name: &str) -> Message {
    Message::Router(RouterMessage::Event(
        String::from(name),
        rel(1, Role::Peripheral),
        spider::dataset_data::DatasetData::String(String::from("hello")),
    ))
}

#[test]
fn unknown_relations_wait_for_approval() {
    let router = RouterState::new();
    assert_eq!(router.authorize_inbound(&rel(1, Role::Peripheral)), LinkDecision::Pending);
}

#[test]
fn known_relations_are_approved() {
    let mut router = RouterState::new();
    let r = rel(1, Role::Peripheral);
    router.add_identity(&r);
    assert_eq!(router.authorize_inbound(&r), LinkDecision::Approved);
}

#[test]
fn blocked_relations_never_approve() {
    let mut router = RouterState::new();
    let r = rel(1, Role::Peripheral);
    router.add_identity(&r);
    router.set_identity_system(&r, String::from("blocked"), String::from("true"));
    assert_eq!(router.authorize_inbound(&r), LinkDecision::Blocked);
    // the system may unblock it again
    router.set_identity_system(&r, String::from("blocked"), String::from("false"));
    assert_eq!(router.authorize_inbound(&r), LinkDecision::Approved);
}

#[test]
fn remote_may_set_only_its_name() {
    let mut router = RouterState::new();
    let r = rel(1, Role::Peripheral);
    assert!(router.set_identity_self(&r, String::from("name"), String::from("lamp")));
    assert!(!router.set_identity_self(&r, String::from("blocked"), String::from("true")));
    assert_eq!(router.authorize_inbound(&r), LinkDecision::Approved);
    let entry = router.directory_entry(&r).expect("entry");
    assert_eq!(entry.get("name"), Some(&String::from("lamp")));
    assert_eq!(entry.get("blocked"), None);
}

#[test]
fn installing_a_link_clears_waiting_and_buffered_state() {
    let mut router = RouterState::new();
    let r = rel(2, Role::Peer);
    router.register_incoming(r.clone());
    router.remove_incoming(&r);
    router.buffer_pending(&r, event_msg("x"));
    let (backlog, added) = router.approved_link_install(r.clone());
    assert!(added);
    assert_eq!(backlog.len(), 1);
    assert!(router.has_link(&r));
}

#[test]
fn clearing_a_directory_entry_drops_the_link() {
    let mut router = RouterState::new();
    let r = rel(2, Role::Peer);
    router.approved_link_install(r.clone());
    assert!(router.has_link(&r));
    let (removed, had_link) = router.clear_directory_entry(&r);
    assert!(removed);
    assert!(had_link);
    assert!(!router.has_link(&r));
    assert!(router.directory_entry(&r).is_none());
}

#[test]
fn peers_cannot_subscribe_to_events() {
    let mut router = RouterState::new();
    let peer = rel(2, Role::Peer);
    let peripheral = rel(3, Role::Peripheral);
    router.approved_link_install(peer.clone());
    router.approved_link_install(peripheral.clone());
    router.subscribe_event(&peer, String::from("x"));
    router.subscribe_event(&peripheral, String::from("x"));
    // an event from another peer reaches the peripheral alone
    let other_peer = rel(4, Role::Peer);
    let recipients = router.event_recipients(&String::from("x"), &other_peer);
    assert_eq!(recipients.len(), 1);
    assert!(recipients[0] == peripheral);
}

#[test]
fn event_recipients_need_live_links() {
    let mut router = RouterState::new();
    let peripheral = rel(3, Role::Peripheral);
    router.subscribe_event(&peripheral, String::from("x"));
    let from = rel(1, Role::Peripheral);
    assert_eq!(router.event_recipients(&String::from("x"), &from).len(), 0);
    router.approved_link_install(peripheral.clone());
    assert_eq!(router.event_recipients(&String::from("x"), &from).len(), 1);
}

#[test]
fn unsubscribing_the_last_listener_drops_the_event_row() {
    let mut router = RouterState::new();
    let peripheral = rel(3, Role::Peripheral);
    router.subscribe_event(&peripheral, String::from("x"));
    assert_eq!(router.event_subscribers.len(), 1);
    router.unsubscribe_event(&peripheral, &String::from("x"));
    assert_eq!(router.event_subscribers.len(), 0);
}

#[test]
fn send_event_buffers_unreachable_externals() {
    let mut router = RouterState::new();
    let sender = rel(1, Role::Peripheral);
    let absent_peer = rel(9, Role::Peer);
    let sends = router.handle_send_event(
        &sender,
        &String::from("x"),
        &vec![absent_peer.clone()],
        event_msg("x"),
    );
    assert_eq!(sends.len(), 0);
    assert_eq!(router.pending_links.len(), 1);
    assert!(router.pending_links[0].0 == absent_peer);
    assert_eq!(router.pending_links[0].1.backlog.len(), 1);
}

#[test]
fn pending_retry_gives_up_after_ten_attempts() {
    let mut router = RouterState::new();
    let peer = rel(9, Role::Peer);
    router.buffer_pending(&peer, event_msg("x"));
    let mut now: u64 = 1000;
    for attempt in 0..10 {
        let (step, _) = router.process_pending_link(&peer, now);
        assert_eq!(step, PendingStep::Resolve, "attempt {}", attempt);
        now += 20;
    }
    let (step, _) = router.process_pending_link(&peer, now);
    assert_eq!(step, PendingStep::GaveUp);
    assert_eq!(router.pending_links.len(), 0);
    let (step, _) = router.process_pending_link(&peer, now);
    assert_eq!(step, PendingStep::Absent);
}

#[test]
fn pending_retry_waits_between_attempts() {
    let mut router = RouterState::new();
    let peer = rel(9, Role::Peer);
    router.buffer_pending(&peer, event_msg("x"));
    let (step, _) = router.process_pending_link(&peer, 1000);
    assert_eq!(step, PendingStep::Resolve);
    let (step, _) = router.process_pending_link(&peer, 1005);
    assert_eq!(step, PendingStep::Wait);
    let (step, _) = router.process_pending_link(&peer, 1010);
    assert_eq!(step, PendingStep::Resolve);
}

#[test]
fn pending_flushes_once_the_link_lives() {
    let mut router = RouterState::new();
    let peer = rel(9, Role::Peer);
    router.buffer_pending(&peer, event_msg("x"));
    router.approved_link_install(peer.clone());
    // installing already drains the buffer; a fresh buffered send flushes on
    // the next step
    router.buffer_pending(&peer, event_msg("y"));
    let (step, backlog) = router.process_pending_link(&peer, 2000);
    assert_eq!(step, PendingStep::Flush);
    assert_eq!(backlog.len(), 1);
    assert_eq!(router.pending_links.len(), 0);
}

#[test]
fn approval_codes_expire_on_upkeep() {
    let mut router = RouterState::new();
    router.set_approval_code(String::from("open sesame"), 500);
    router.set_approval_code(String::from("fresh"), 2000);
    router.clean_approval_codes(1000);
    assert_eq!(router.approval_codes.len(), 1);
    assert_eq!(router.approval_codes[0].0, "fresh");
}

#[test]
fn first_owner_auto_approval_is_one_time() {
    let mut router = RouterState::new();
    router.init_should_approve_ui();
    assert!(router.should_approve_ui);
    // the first interface subscription approves its link
    let mut session = PendingLinkSession::new(router.approval_code_list());
    let outcome = session.on_link_message(Message::Ui(UiMessage::Subscribe), router.should_approve_ui);
    assert_eq!(outcome, PendingOutcome::Approve);
    assert!(router.try_consume_ui_approval());
    // the second one waits
    let mut session2 = PendingLinkSession::new(router.approval_code_list());
    let outcome = session2.on_link_message(
        Message::Ui(UiMessage::Subscribe),
        router.should_approve_ui,
    );
    assert_eq!(outcome, PendingOutcome::Wait);
}

#[test]
fn one_time_approval_stays_closed_for_known_bases() {
    let mut router = RouterState::new();
    router.add_identity(&rel(1, Role::Peripheral));
    router.init_should_approve_ui();
    assert!(!router.should_approve_ui);
}

#[test]
fn pending_session_takes_a_correct_code() {
    let mut session = PendingLinkSession::new(vec![String::from("code-1")]);
    let wrong = Message::Router(RouterMessage::ApprovalCode(String::from("nope")));
    assert_eq!(session.on_link_message(wrong, false), PendingOutcome::Wait);
    let right = Message::Router(RouterMessage::ApprovalCode(String::from("code-1")));
    assert_eq!(session.on_link_message(right, false), PendingOutcome::Approve);
}

#[test]
fn pending_session_denies_after_five_wrong_codes() {
    let mut session = PendingLinkSession::new(vec![String::from("code-1")]);
    for n in 0..5 {
        let wrong = Message::Router(RouterMessage::ApprovalCode(format!("wrong-{}", n)));
        assert_eq!(session.on_link_message(wrong, false), PendingOutcome::Wait);
    }
    let wrong = Message::Router(RouterMessage::ApprovalCode(String::from("wrong-last")));
    assert_eq!(session.on_link_message(wrong, false), PendingOutcome::Deny);
}

#[test]
fn pending_session_takes_a_late_code_matching_the_last_try() {
    let mut session = PendingLinkSession::new(vec![]);
    let tried = Message::Router(RouterMessage::ApprovalCode(String::from("later")));
    assert_eq!(session.on_link_message(tried, false), PendingOutcome::Wait);
    let outcome = session.on_control(PendingLinkControl::AddCode(String::from("later")));
    assert_eq!(outcome, PendingOutcome::Approve);
}

#[test]
fn pending_session_overflows_its_backlog() {
    let mut session = PendingLinkSession::new(vec![]);
    for _ in 0..100 {
        let msg = Message::Error(String::from("noise"));
        assert_eq!(session.on_link_message(msg, false), PendingOutcome::Wait);
    }
    let msg = Message::Error(String::from("one too many"));
    assert_eq!(session.on_link_message(msg, false), PendingOutcome::Deny);
}

#[test]
fn pending_session_controls_settle_it() {
    let mut session = PendingLinkSession::new(vec![]);
    assert_eq!(session.on_control(PendingLinkControl::Approve), PendingOutcome::Approve);
    let mut session = PendingLinkSession::new(vec![]);
    assert_eq!(session.on_control(PendingLinkControl::Deny), PendingOutcome::Deny);
}

#[test]
fn directory_survives_save_and_reload() {
    let mut router = RouterState::new();
    let a = rel(1, Role::Peripheral);
    let b = rel(2, Role::Peer);
    router.add_identity(&a);
    router.add_identity(&b);
    router.set_identity_system(&a, String::from("nickname"), String::from("lamp"));
    let saved = spider::base_state::directory_to_entries(&router.directory);
    let reloaded = spider::base_state::directory_from_entries(&saved);
    assert_eq!(reloaded.len(), router.directory.len());
    for i in 0..reloaded.len() {
        assert!(reloaded[i].0 == router.directory[i].0);
        assert!(reloaded[i].1.relation() == router.directory[i].1.relation());
        assert_eq!(reloaded[i].1.get("nickname"), router.directory[i].1.get("nickname"));
    }
}

#[test]
fn directory_entry_properties_replace() {
    let mut entry = DirectoryEntry::new(rel(1, Role::Peripheral));
    entry.set(String::from("name"), String::from("one"));
    entry.set(String::from("name"), String::from("two"));
    assert_eq!(entry.get("name"), Some(&String::from("two")));
    assert_eq!(entry.get("nickname"), None);
}

#[test]
fn directory_subscribers_come_and_go() {
    let mut router = RouterState::new();
    let a = rel(1, Role::Peripheral);
    router.subscribe_directory(a.clone());
    router.subscribe_directory(a.clone());
    assert_eq!(router.directory_subscriber_list().len(), 1);
    router.unsubscribe_directory(&a);
    assert_eq!(router.directory_subscriber_list().len(), 0);
}

#[test]
fn a_correct_code_is_not_replayed() {
    let mut session = PendingLinkSession::new(vec![String::from("code-1")]);
    let right = Message::Router(RouterMessage::ApprovalCode(String::from("code-1")));
    assert_eq!(session.on_link_message(right, false), PendingOutcome::Approve);
    assert_eq!(session.take_backlog().len(), 0);
}

#[test]
fn renames_report_whether_the_value_moved() {
    let mut router = RouterState::new();
    let r = rel(1, Role::Peripheral);
    assert!(router.set_identity_self(&r, String::from("name"), String::from("lamp")));
    assert!(!router.set_identity_self(&r, String::from("name"), String::from("lamp")));
    assert!(router.set_identity_self(&r, String::from("name"), String::from("torch")));
}

#[test]
fn chord_ports_come_from_the_window() {
    assert_eq!(next_chord_port(&vec![]), Some(1932));
    assert_eq!(next_chord_port(&vec![1932, 1933]), Some(1934));
    let all: Vec<u16> = (1932..1950).collect();
    assert_eq!(next_chord_port(&all), None);
}

#[test]
fn chord_subscribers_come_and_go() {
    let mut router = RouterState::new();
    let a = rel(1, Role::Peripheral);
    router.subscribe_chord(&a, 50);
    router.subscribe_chord(&a, 10);
    assert_eq!(router.chord_subscribers.len(), 1);
    assert_eq!(router.chord_subscribers[0].1, 10);
    router.unsubscribe_chord(&a);
    assert_eq!(router.chord_subscribers.len(), 0);
}

#[test]
fn loaded_directories_drop_duplicate_relations() {
    let mut router = RouterState::new();
    let a = rel(1, Role::Peripheral);
    let mut first = spider::directory::DirectoryEntry::new(a.clone());
    first.set(String::from("nickname"), String::from("one"));
    let second = spider::directory::DirectoryEntry::new(a.clone());
    router.load_directory(vec![first, second]);
    assert_eq!(router.directory.len(), 1);
    assert_eq!(router.directory[0].1.get("nickname"), Some(&String::from("one")));
}

#[test]
fn inbound_events_carry_the_authenticated_sender() {
    let link_rel = rel(2, Role::Peer);
    let msg = RouterState::inbound_event_to_emit(
        &link_rel,
        String::from("x"),
        spider::dataset_data::DatasetData::Int(3),
    );
    match msg {
        Message::Router(RouterMessage::Event(name, from, _)) => {
            assert_eq!(name, "x");
            assert!(from == link_rel);
        },
        _ => panic!("not an event"),
    }
}

#[test]
fn handshake_decisions_follow_the_first_frame() {
    let probe = key_request_payload();
    assert!(is_key_request(&probe));
    let own = spider::id::SpiderId2048::from_bytes(vec![1; 294]);
    match listener_first_frame(&probe, &Some(String::from("mybase")), &own) {
        FirstFrameStep::RespondKeyRequest(kr) => {
            assert_eq!(kr.name, "mybase");
            assert!(kr.key == own);
        },
        _ => panic!("expected a reply"),
    }
    assert!(matches!(
        listener_first_frame(&probe, &None, &own),
        FirstFrameStep::CloseSilently
    ));
    assert!(matches!(
        listener_first_frame(&vec![1, 2, 3], &Some(String::from("mybase")), &own),
        FirstFrameStep::DecryptConfig
    ));
    let config = stream_config_bytes(&vec![7u8; 32], &vec![9u8; 12]);
    let (key, nonce) = read_stream_config(&config).expect("config");
    assert_eq!(key, vec![7u8; 32]);
    assert_eq!(nonce, vec![9u8; 12]);
    assert!(read_stream_config(&vec![0u8; 10]).is_none());
    let expected = Some(rel(4, Role::Peer));
    assert!(check_introduction(&expected, rel(4, Role::Peer)).is_some());
    assert!(check_introduction(&expected, rel(5, Role::Peer)).is_none());
}

#[test]
fn stream_sealing_round_trips() {
    let key = vec![3u8; 32];
    let nonce = vec![4u8; 12];
    let pt = b"hello across the wire".to_vec();
    let ct = chacha_seal(&key, &nonce, &pt).expect("seal");
    assert_ne!(ct, pt);
    assert_eq!(chacha_open(&key, &nonce, &ct), Some(pt));
    assert_eq!(chacha_open(&key, &nonce, &vec![0u8; 24]), None);
}

#[test]
fn handshake_keys_cross_with_rsa() {
    let key = rsa_generate(2048).expect("key");
    let priv_der = rsa_priv_to_pkcs8_der(&key).expect("private der");
    let pub_der = rsa_pub_der(&key).expect("public der");
    let secret = vec![5u8; 44];
    let ct = rsa_encrypt_pkcs1v15(&pub_der, &secret).expect("encrypt");
    assert_eq!(rsa_decrypt_pkcs1v15(&priv_der, &ct), Some(secret));
}

#[test]
fn chord_addresses_go_out_most_recent_first() {
    let mut router = RouterState::new();
    let sub = rel(1, Role::Peripheral);
    assert!(router.chord_addrs_for(&sub).is_none());
    router.subscribe_chord(&sub, 2);
    router.record_chord_addr(String::from("a:1"));
    router.record_chord_addr(String::from("b:2"));
    router.record_chord_addr(String::from("c:3"));
    // re-recording moves an address to the front without duplicating it
    router.record_chord_addr(String::from("b:2"));
    let sent = router.chord_addrs_for(&sub).expect("subscriber");
    assert_eq!(sent, vec![String::from("b:2"), String::from("c:3")]);
    router.subscribe_chord(&sub, 10);
    let sent = router.chord_addrs_for(&sub).expect("subscriber");
    assert_eq!(
        sent,
        vec![String::from("b:2"), String::from("c:3"), String::from("a:1")]
    );
    router.unsubscribe_chord(&sub);
    assert!(router.chord_addrs_for(&sub).is_none());
}

#[test]
fn chord_address_cache_evicts_its_oldest() {
    let mut cache = ChordAddrCache::new();
    for i in 0..CHORD_ADDR_CAPACITY + 3 {
        let mut addr = String::from("peer:");
        addr.push_str(&i.to_string());
        cache.push(addr);
    }
    assert_eq!(cache.rows.len(), CHORD_ADDR_CAPACITY);
    let recent = cache.recent(2);
    assert_eq!(recent, vec![String::from("peer:502"), String::from("peer:501")]);
    // the oldest three fell out
    assert!(!cache.rows.contains(&String::from("peer:2")));
    assert!(cache.rows.contains(&String::from("peer:3")));
}

#[test]
fn registered_approval_codes_live_five_minutes() {
    let mut router = RouterState::new();
    router.register_approval_code(String::from("word"), 700);
    router.clean_approval_codes(999);
    assert_eq!(router.approval_codes.len(), 1);
    assert_eq!(router.approval_codes[0].1, 1000);
    router.clean_approval_codes(1001);
    assert!(router.approval_codes.is_empty());
}
