use space_counter::hub::Hub;
use space_counter::ws::{Outcome, UpdateRequest};

fn connect(hub: &mut Hub, code: &str) -> String {
    let resp = hub.register(code).ok().expect("registration accepted");
    let id = resp.url.rsplit('/').next().unwrap().to_string();
    assert!(hub.upgrade(&id));
    id
}

fn join(code: &str) -> (String, Option<UpdateRequest>) {
    let text = format!(r#"{{"SpaceSet":{{"space_code":"{}"}}}}"#, code);
    (text, Some(UpdateRequest::SpaceSet { space_code: code.to_string() }))
}

fn update(mode: &str, value: isize) -> (String, Option<UpdateRequest>) {
    let text = format!(r#"{{"CountUpdate":{{"mode":"{}","value":{}}}}}"#, mode, value);
    (text, Some(UpdateRequest::CountUpdate { mode: mode.to_string(), value }))
}

fn send(hub: &mut Hub, id: &str, msg: (String, Option<UpdateRequest>)) -> Outcome {
    hub.client_msg(id, &msg.0, msg.1)
}

fn broadcast(o: Outcome) -> (String, isize, String, Vec<String>) {
    match o {
        Outcome::Broadcast { space_code, count, text, recipients } => (space_code, count, text, recipients),
        _ => panic!("expected a broadcast"),
    }
}

#[test]
fn join_then_absolute_update_broadcasts_value() {
    let mut hub = Hub::new();
    let id = connect(&mut hub, "QZXP");
    assert!(matches!(send(&mut hub, &id, join("ABCD")), Outcome::Joined));
    let (code, count, text, recipients) = broadcast(send(&mut hub, &id, update("absolute", 5)));
    assert_eq!(code, "ABCD");
    assert_eq!(count, 5);
    assert_eq!(text, "5");
    assert_eq!(recipients, vec![id]);
}

#[test]
fn two_members_both_receive_clamped_zero() {
    let mut hub = Hub::new();
    let a = connect(&mut hub, "QZXP");
    let b = connect(&mut hub, "QZXP");
    send(&mut hub, &a, join("ABCD"));
    send(&mut hub, &b, join("ABCD"));
    let (_, count, text, mut recipients) = broadcast(send(&mut hub, &a, update("relative", -10)));
    assert_eq!(count, 0);
    assert_eq!(text, "0");
    recipients.sort();
    let mut want = vec![a, b];
    want.sort();
    assert_eq!(recipients, want);
}

#[test]
fn default_space_receives_repeated_updates() {
    let mut hub = Hub::new();
    let a = connect(&mut hub, "QZXP");
    let b = connect(&mut hub, "QZXP");
    let (c1, n1, t1, r1) = broadcast(send(&mut hub, &a, update("relative", 3)));
    assert_eq!((c1.as_str(), n1, t1.as_str()), ("QZXP", 3, "3"));
    assert_eq!(r1.len(), 2);
    let (c2, n2, t2, r2) = broadcast(send(&mut hub, &a, update("relative", 3)));
    assert_eq!((c2.as_str(), n2, t2.as_str()), ("QZXP", 6, "6"));
    assert!(r2.contains(&a) && r2.contains(&b));
    assert_eq!(hub.count_of("QZXP"), 6);
}

#[test]
fn unknown_id_upgrade_is_refused() {
    let mut hub = Hub::new();
    let a = connect(&mut hub, "ABCD");
    assert!(!hub.upgrade("no-such-connection"));
    assert!(!hub.contains("no-such-connection"));
    assert!(hub.contains(&a));
}

#[test]
fn pings_change_nothing() {
    let mut hub = Hub::new();
    let a = connect(&mut hub, "ABCD");
    send(&mut hub, &a, update("absolute", 4));
    assert!(matches!(hub.client_msg(&a, "ping", None), Outcome::Ignored));
    assert!(matches!(hub.client_msg(&a, "ping\n", None), Outcome::Ignored));
    assert_eq!(hub.count_of("ABCD"), 4);
}

#[test]
fn broadcast_skips_other_spaces_and_pending_connections() {
    let mut hub = Hub::new();
    let a = connect(&mut hub, "ABCD");
    let b = connect(&mut hub, "WXYZ");
    let pending = hub.register("ABCD").ok().unwrap().url;
    let (_, _, _, recipients) = broadcast(send(&mut hub, &a, update("relative", 1)));
    assert_eq!(recipients, vec![a.clone()]);
    assert!(!recipients.contains(&b));
    assert!(!pending.is_empty());
    assert_eq!(hub.count_of("WXYZ"), 0);
}

#[test]
fn disconnected_connection_is_never_reached() {
    let mut hub = Hub::new();
    let a = connect(&mut hub, "ABCD");
    for _ in 0..5 {
        let b = connect(&mut hub, "ABCD");
        assert!(hub.unregister(&b));
        assert!(!hub.contains(&b));
    }
    let (_, _, _, recipients) = broadcast(send(&mut hub, &a, update("relative", 1)));
    assert_eq!(recipients, vec![a]);
}

#[test]
fn messages_of_unknown_or_undecodable_are_dropped() {
    let mut hub = Hub::new();
    let a = connect(&mut hub, "ABCD");
    assert!(matches!(send(&mut hub, "ghost", update("absolute", 3)), Outcome::Ignored));
    assert!(matches!(hub.client_msg(&a, "{oops", None), Outcome::Ignored));
    assert_eq!(hub.count_of("ABCD"), 0);
}

#[test]
fn unknown_mode_reads_back_count() {
    let mut hub = Hub::new();
    let a = connect(&mut hub, "ABCD");
    send(&mut hub, &a, update("relative", 7));
    let (_, count, text, _) = broadcast(send(&mut hub, &a, update("sideways", 100)));
    assert_eq!((count, text.as_str()), (7, "7"));
}

#[test]
fn invalid_space_codes_are_refused() {
    let mut hub = Hub::new();
    for code in ["ABC", "ABCDEFG", "abcd", "AB1D", ""] {
        let r = hub.register(code);
        assert!(r.is_err());
    }
    for code in ["ABCD", "ABCDE", "ABCDEF"] {
        let r = hub.register(code).ok().unwrap();
        assert!(r.url.starts_with("ws://0.0.0.0:8000/ws/"));
        assert_eq!(r.url.len(), "ws://0.0.0.0:8000/ws/".len() + 32);
    }
}

#[test]
fn register_client_uses_given_id() {
    let mut hub = Hub::new();
    let r = hub.register_client("abc".to_string(), "ABCD".to_string(), true);
    assert_eq!(r.ok().unwrap().url, "ws://0.0.0.0:8000/ws/abc");
    assert!(hub.contains("abc"));
    let e = hub.register_client("def".to_string(), "ABCD".to_string(), false);
    assert!(e.is_err());
    assert!(!hub.contains("def"));
}

#[test]
fn upgraded_only_after_upgrade() {
    let mut hub = Hub::new();
    hub.register_client("p".to_string(), "ABCD".to_string(), true).ok().unwrap();
    let (_, _, _, r) = broadcast(send(&mut hub, "p", update("relative", 2)));
    assert!(r.is_empty());
    assert!(hub.upgrade("p"));
    let (_, n, _, r) = broadcast(send(&mut hub, "p", update("relative", 2)));
    assert_eq!((n, r), (4, vec!["p".to_string()]));
}

#[test]
fn join_creates_unseen_space_at_zero() {
    let mut hub = Hub::new();
    let a = connect(&mut hub, "ABCD");
    assert!(matches!(send(&mut hub, &a, join("NEWS")), Outcome::Joined));
    assert_eq!(hub.count_of("NEWS"), 0);
    let (code, count, _, _) = broadcast(send(&mut hub, &a, update("relative", 2)));
    assert_eq!((code.as_str(), count), ("NEWS", 2));
    assert!(matches!(send(&mut hub, &a, join("ABCD")), Outcome::Joined));
    assert!(matches!(send(&mut hub, &a, join("NEWS")), Outcome::Joined));
    assert_eq!(hub.count_of("NEWS"), 2);
}

#[test]
fn unregister_unknown_is_not_found() {
    let mut hub = Hub::new();
    let a = connect(&mut hub, "ABCD");
    assert!(!hub.unregister("nobody"));
    assert!(hub.contains(&a));
    assert!(hub.unregister(&a));
    assert!(!hub.unregister(&a));
}

#[test]
fn registered_ids_are_lower_hex_and_taken_ids_refused() {
    let mut hub = Hub::new();
    let url = hub.register("ABCD").ok().unwrap().url;
    let id = url.rsplit('/').next().unwrap().to_string();
    assert_eq!(id.len(), 32);
    assert!(id.chars().all(|c| c.is_ascii_digit() || ('a'..='f').contains(&c)));
    let e = hub.register_client(id.clone(), "WXYZ".to_string(), true);
    assert_eq!(e.err().unwrap().message, "identifier already in use");
    let e = hub.register("abc");
    assert_eq!(e.err().unwrap().message, "invalid space code");
}
