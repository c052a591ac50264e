use tcp_chat::fanout::{Fanout, SendOutcome};
use tcp_chat::message::Message;
use tcp_chat::registry::{PeerAddr, Registry};
use tcp_chat::session::{prompt, Action, Event, Phase, Session};

fn addr(port: u16) -> PeerAddr {
    PeerAddr { ip: 0x7f00_0001, port, v6: false, flowinfo: 0, scope_id: 0 }
}

/// Runs one broadcast over `registry`, where a handle is an index into
/// `inboxes`; a `None` inbox stands for a closed channel.
fn broadcast(
    registry: &mut Registry<usize>,
    inboxes: &mut Vec<Option<Vec<String>>>,
    origin: PeerAddr,
    message: &Message,
) {
    let mut fan = Fanout::start(registry, origin);
    loop {
        let target = fan.next_send(registry).map(|(a, h)| (a, *h));
        match target {
            None => break,
            Some((_, h)) => {
                let outcome = match inboxes[h].as_mut() {
                    Some(inbox) => {
                        inbox.push(message.render());
                        SendOutcome::Delivered
                    }
                    None => SendOutcome::Closed,
                };
                fan.record(registry, outcome);
            }
        }
    }
}

fn lines(v: &[&str]) -> Vec<String> {
    v.iter().map(|s| s.to_string()).collect()
}

#[test]
fn prompt_text() {
    assert_eq!(prompt(), "Enter your username: ");
}

#[test]
fn register_then_lookup() {
    let mut r: Registry<usize> = Registry::new();
    assert!(!r.contains(addr(1)));
    r.register(addr(1), 10);
    r.register(addr(2), 20);
    assert!(r.contains(addr(1)));
    assert_eq!(r.handle(addr(1)), Some(&10));
    assert_eq!(r.handle(addr(2)), Some(&20));
    assert_eq!(r.handle(addr(3)), None);
}

#[test]
fn register_same_address_overwrites() {
    let mut r: Registry<usize> = Registry::new();
    r.register(addr(1), 10);
    r.register(addr(1), 11);
    assert_eq!(r.handle(addr(1)), Some(&11));
    assert_eq!(r.addresses_except(addr(9)), vec![addr(1)]);
}

#[test]
fn deregister_is_idempotent() {
    let mut r: Registry<usize> = Registry::new();
    r.register(addr(1), 10);
    r.register(addr(2), 20);
    r.deregister(addr(1));
    r.deregister(addr(1));
    r.deregister(addr(7));
    assert!(!r.contains(addr(1)));
    assert_eq!(r.handle(addr(2)), Some(&20));
}

#[test]
fn addresses_differ_by_port_and_family() {
    let mut r: Registry<usize> = Registry::new();
    let v6 = PeerAddr { ip: 0x7f00_0001, port: 1, v6: true, flowinfo: 0, scope_id: 0 };
    r.register(addr(1), 10);
    r.register(v6, 11);
    assert_eq!(r.handle(addr(1)), Some(&10));
    assert_eq!(r.handle(v6), Some(&11));
}

#[test]
fn broadcast_skips_origin() {
    let mut r: Registry<usize> = Registry::new();
    let mut inboxes = vec![Some(Vec::new()), Some(Vec::new()), Some(Vec::new())];
    for i in 0..3 {
        r.register(addr(i as u16), i);
    }
    broadcast(&mut r, &mut inboxes, addr(0), &Message::new_chat("a", "x"));
    assert_eq!(inboxes[0], Some(Vec::new()));
    assert_eq!(inboxes[1], Some(lines(&["[User (a)]: x"])));
    assert_eq!(inboxes[2], Some(lines(&["[User (a)]: x"])));
}

#[test]
fn broadcast_reaches_each_other_peer_once() {
    let mut r: Registry<usize> = Registry::new();
    let mut inboxes: Vec<Option<Vec<String>>> = (0..5).map(|_| Some(Vec::new())).collect();
    for i in 0..5 {
        r.register(addr(i as u16), i);
    }
    broadcast(&mut r, &mut inboxes, addr(2), &Message::user_joined("c"));
    for (i, inbox) in inboxes.iter().enumerate() {
        let got = inbox.as_ref().unwrap().len();
        assert_eq!(got, if i == 2 { 0 } else { 1 });
    }
}

#[test]
fn broadcast_from_unregistered_origin_reaches_all() {
    let mut r: Registry<usize> = Registry::new();
    let mut inboxes = vec![Some(Vec::new()), Some(Vec::new())];
    r.register(addr(0), 0);
    r.register(addr(1), 1);
    broadcast(&mut r, &mut inboxes, addr(5), &Message::user_left("z"));
    assert_eq!(inboxes[0], Some(lines(&["[System]: z has left the chat"])));
    assert_eq!(inboxes[1], Some(lines(&["[System]: z has left the chat"])));
}

#[test]
fn closed_channel_is_removed_and_others_still_served() {
    let mut r: Registry<usize> = Registry::new();
    let mut inboxes = vec![Some(Vec::new()), None, Some(Vec::new())];
    for i in 0..3 {
        r.register(addr(i as u16), i);
    }
    broadcast(&mut r, &mut inboxes, addr(0), &Message::new_chat("a", "x"));
    assert!(!r.contains(addr(1)));
    assert!(r.contains(addr(0)));
    assert!(r.contains(addr(2)));
    assert_eq!(inboxes[2], Some(lines(&["[User (a)]: x"])));
}

#[test]
fn peer_that_left_meanwhile_is_skipped() {
    let mut r: Registry<usize> = Registry::new();
    r.register(addr(0), 0);
    r.register(addr(1), 1);
    r.register(addr(2), 2);
    let mut fan = Fanout::start(&r, addr(0));
    r.deregister(addr(1));
    let mut served = Vec::new();
    while let Some((a, h)) = fan.next_send(&r).map(|(a, h)| (a, *h)) {
        served.push((a, h));
        fan.record(&mut r, SendOutcome::Delivered);
    }
    assert_eq!(served, vec![(addr(2), 2)]);
}

#[test]
fn empty_registry_broadcast_is_done_at_once() {
    let r: Registry<usize> = Registry::new();
    let mut fan = Fanout::start(&r, addr(0));
    assert!(fan.next_send(&r).is_none());
}

#[test]
fn per_recipient_order_follows_broadcast_order() {
    let mut r: Registry<usize> = Registry::new();
    let mut inboxes = vec![Some(Vec::new()), Some(Vec::new())];
    r.register(addr(0), 0);
    r.register(addr(1), 1);
    broadcast(&mut r, &mut inboxes, addr(0), &Message::new_chat("a", "first"));
    broadcast(&mut r, &mut inboxes, addr(0), &Message::new_chat("a", "second"));
    assert_eq!(inboxes[1], Some(lines(&["[User (a)]: first", "[User (a)]: second"])));
}

#[test]
fn session_handshake_then_chat_then_leave() {
    let mut s = Session::new();
    assert_eq!(s.phase(), Phase::Handshaking);
    match s.step(Event::Line("alice".to_string())) {
        Action::Join { username, notice } => {
            assert_eq!(username, "alice");
            assert_eq!(notice.render(), "[System]: alice has joined the chat");
        }
        other => panic!("unexpected {:?}", other),
    }
    assert_eq!(s.phase(), Phase::Active);
    assert_eq!(s.username(), "alice");
    match s.step(Event::Line("hi".to_string())) {
        Action::Chat(m) => assert_eq!(m.render(), "[User (alice)]: hi"),
        other => panic!("unexpected {:?}", other),
    }
    match s.step(Event::End) {
        Action::Leave(m) => assert_eq!(m.render(), "[System]: alice has left the chat"),
        other => panic!("unexpected {:?}", other),
    }
    assert_eq!(s.phase(), Phase::Closed);
    assert!(matches!(s.step(Event::End), Action::Idle));
    assert!(matches!(s.step(Event::Line("late".to_string())), Action::Idle));
}

#[test]
fn session_aborts_without_username() {
    let mut s = Session::new();
    assert!(matches!(s.step(Event::End), Action::Abort));
    assert_eq!(s.phase(), Phase::Closed);
    assert!(matches!(s.step(Event::Line("x".to_string())), Action::Idle));
}

#[test]
fn session_accepts_empty_username_and_line() {
    let mut s = Session::new();
    assert!(matches!(s.step(Event::Line(String::new())), Action::Join { .. }));
    match s.step(Event::Line(String::new())) {
        Action::Chat(m) => assert_eq!(m.render(), "[User ()]: "),
        other => panic!("unexpected {:?}", other),
    }
}

/// Drives one connection's event through the table as the server does.
fn drive(
    r: &mut Registry<usize>,
    inboxes: &mut Vec<Option<Vec<String>>>,
    s: &mut Session,
    at: PeerAddr,
    inbox: usize,
    event: Event,
) {
    match s.step(event) {
        Action::Join { notice, .. } => {
            r.register(at, inbox);
            broadcast(r, inboxes, at, &notice);
        }
        Action::Chat(m) => broadcast(r, inboxes, at, &m),
        Action::Leave(m) => {
            r.deregister(at);
            broadcast(r, inboxes, at, &m);
        }
        Action::Abort | Action::Idle => {}
    }
}

#[test]
fn three_clients_scenario() {
    let mut r: Registry<usize> = Registry::new();
    let mut inboxes = vec![Some(Vec::new()), Some(Vec::new()), Some(Vec::new())];
    let (a, b, c) = (addr(1), addr(2), addr(3));
    let mut sa = Session::new();
    let mut sb = Session::new();
    let mut sc = Session::new();
    drive(&mut r, &mut inboxes, &mut sa, a, 0, Event::Line("alice".to_string()));
    drive(&mut r, &mut inboxes, &mut sb, b, 1, Event::Line("bob".to_string()));
    drive(&mut r, &mut inboxes, &mut sc, c, 2, Event::Line("carol".to_string()));
    assert_eq!(inboxes[0], Some(lines(&["[System]: bob has joined the chat", "[System]: carol has joined the chat"])));
    assert_eq!(inboxes[1], Some(lines(&["[System]: carol has joined the chat"])));
    assert_eq!(inboxes[2], Some(Vec::new()));

    for i in inboxes.iter_mut() {
        *i = Some(Vec::new());
    }
    drive(&mut r, &mut inboxes, &mut sa, a, 0, Event::Line("hi".to_string()));
    assert_eq!(inboxes[0], Some(Vec::new()));
    assert_eq!(inboxes[1], Some(lines(&["[User (alice)]: hi"])));
    assert_eq!(inboxes[2], Some(lines(&["[User (alice)]: hi"])));

    drive(&mut r, &mut inboxes, &mut sb, b, 1, Event::End);
    assert!(!r.contains(b));
    assert_eq!(inboxes[0], Some(lines(&["[System]: bob has left the chat"])));
    assert_eq!(inboxes[2], Some(lines(&["[User (alice)]: hi", "[System]: bob has left the chat"])));
    assert_eq!(inboxes[1], Some(lines(&["[User (alice)]: hi"])));
}
