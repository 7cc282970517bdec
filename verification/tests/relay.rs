use wapplatalk::PeerAddr;
use wapplatalk::server::{
    encode_message, handle_datagram, ClientInfo, Message, Outgoing, RelayState,
};

fn addr(ip: u32, port: u16) -> PeerAddr {
    PeerAddr { ip, port }
}

fn sent_to(out: &[Outgoing], dest: PeerAddr) -> Vec<&Message> {
    out.iter().filter(|o| o.dest == dest).map(|o| &o.msg).collect()
}

/// Peers A, B, C say hello in that order; then A sends audio.
#[test]
fn fan_out() {
    let a = addr(1, 1000);
    let b = addr(2, 2000);
    let c = addr(3, 3000);
    let hello = |who: PeerAddr| encode_message(&Message::Hello(who));
    let mut relay = RelayState::new();

    // After A: A is registered, gets the echo, nobody hears NewClient.
    let out = handle_datagram(&mut relay, a, &hello(a), 10);
    assert_eq!(relay.clients.len(), 1);
    assert_eq!(sent_to(&out, a), vec![&Message::Hello(a)]);
    assert_eq!(out.len(), 1);

    // After B: B gets the echo and NewClient(A); A gets NewClient(B).
    let out = handle_datagram(&mut relay, b, &hello(b), 20);
    assert_eq!(relay.clients.len(), 2);
    assert_eq!(sent_to(&out, b), vec![&Message::Hello(b), &Message::NewClient(a)]);
    assert_eq!(sent_to(&out, a), vec![&Message::NewClient(b)]);
    assert_eq!(out.len(), 3);

    // After C: C gets the echo, NewClient(A) and NewClient(B); A and B each
    // get exactly one NewClient(C).
    let out = handle_datagram(&mut relay, c, &hello(c), 30);
    assert_eq!(relay.clients.len(), 3);
    assert_eq!(
        sent_to(&out, c),
        vec![&Message::Hello(c), &Message::NewClient(a), &Message::NewClient(b)]
    );
    assert_eq!(sent_to(&out, a), vec![&Message::NewClient(c)]);
    assert_eq!(sent_to(&out, b), vec![&Message::NewClient(c)]);

    // A sends audio: B and C each get exactly one AudioFrom(A, x); A nothing.
    let x = vec![5, 6, 7];
    let out = handle_datagram(&mut relay, a, &encode_message(&Message::Audio(x.clone())), 40);
    assert_eq!(sent_to(&out, a), Vec::<&Message>::new());
    assert_eq!(sent_to(&out, b), vec![&Message::AudioFrom(a, x.clone())]);
    assert_eq!(sent_to(&out, c), vec![&Message::AudioFrom(a, x.clone())]);
    assert_eq!(out.len(), 2);
}

/// A repeated hello acknowledges again but tells nobody anything new.
#[test]
fn duplicate_hello_is_idempotent() {
    let a = addr(1, 1000);
    let b = addr(2, 2000);
    let hello = |who: PeerAddr| encode_message(&Message::Hello(who));
    let mut relay = RelayState::new();
    handle_datagram(&mut relay, a, &hello(a), 10);
    handle_datagram(&mut relay, b, &hello(b), 20);

    let out = handle_datagram(&mut relay, a, &hello(a), 30);
    assert_eq!(relay.clients.len(), 2);
    assert_eq!(out.len(), 1);
    assert_eq!(sent_to(&out, a), vec![&Message::Hello(a)]);
}

/// With {A, B, C} registered, B says bye: A and C each get exactly one
/// DeleteClient(B), and later audio from A reaches only C.
#[test]
fn bye() {
    let a = addr(1, 1000);
    let b = addr(2, 2000);
    let c = addr(3, 3000);
    let hello = |who: PeerAddr| encode_message(&Message::Hello(who));
    let mut relay = RelayState::new();
    handle_datagram(&mut relay, a, &hello(a), 10);
    handle_datagram(&mut relay, b, &hello(b), 20);
    handle_datagram(&mut relay, c, &hello(c), 30);

    let out = handle_datagram(&mut relay, b, &encode_message(&Message::Bye), 40);
    // B was re-registered on receipt and then removed again by the farewell.
    assert_eq!(relay.clients.len(), 2);
    assert_eq!(sent_to(&out, b), vec![&Message::Bye]);
    assert_eq!(sent_to(&out, a), vec![&Message::DeleteClient(b)]);
    assert_eq!(sent_to(&out, c), vec![&Message::DeleteClient(b)]);

    let x = vec![1, 2];
    let out = handle_datagram(&mut relay, a, &encode_message(&Message::Audio(x.clone())), 50);
    assert_eq!(out.len(), 1);
    assert_eq!(sent_to(&out, c), vec![&Message::AudioFrom(a, x.clone())]);
}

/// A two-byte garbage datagram from a new source registers the source and
/// sends nothing.
#[test]
fn malformed_datagram() {
    let a = addr(1, 1000);
    let b = addr(9, 9000);
    let mut relay = RelayState::new();
    handle_datagram(&mut relay, a, &encode_message(&Message::Hello(a)), 10);

    let out = handle_datagram(&mut relay, b, &[200, 13], 20);
    assert_eq!(out.len(), 0);
    assert_eq!(relay.clients.len(), 2);
    assert!(relay.clients.iter().any(|c| c.addr == b));
}

/// Ping refreshes liveness and answers nothing.
#[test]
fn ping_is_quiet() {
    let a = addr(1, 1000);
    let mut relay = RelayState::new();
    handle_datagram(&mut relay, a, &encode_message(&Message::Hello(a)), 10);
    let out = handle_datagram(&mut relay, a, &encode_message(&Message::Ping), 500);
    assert_eq!(out.len(), 0);
    assert_eq!(relay.clients[0].last_active, 500);
}

/// Spoofed relay-only messages from a client are ignored.
#[test]
fn relay_only_messages_ignored() {
    let a = addr(1, 1000);
    let b = addr(2, 2000);
    let mut relay = RelayState::new();
    handle_datagram(&mut relay, a, &encode_message(&Message::Hello(a)), 10);
    handle_datagram(&mut relay, b, &encode_message(&Message::Hello(b)), 20);

    let spoofed = encode_message(&Message::AudioFrom(b, vec![1]));
    let out = handle_datagram(&mut relay, a, &spoofed, 30);
    assert_eq!(out.len(), 0);
    let spoofed = encode_message(&Message::NewClient(a));
    let out = handle_datagram(&mut relay, b, &spoofed, 40);
    assert_eq!(out.len(), 0);
}

/// On the datagram that fires the sweep, peers idle beyond the timeout are
/// removed, each with a Bye to it and a DeleteClient to the others.
#[test]
fn idle_sweep() {
    let a = addr(1, 1000);
    let stale = addr(2, 2000);
    let now: u64 = 600_000;
    let mut relay = RelayState {
        clients: vec![
            ClientInfo { addr: a, last_active: now - 1000 },
            ClientInfo { addr: stale, last_active: now - 500_000 },
        ],
        check_counter: 99,
    };
    let out = handle_datagram(&mut relay, a, &encode_message(&Message::Ping), now);
    assert_eq!(relay.check_counter, 0);
    assert_eq!(relay.clients.len(), 1);
    assert_eq!(relay.clients[0].addr, a);
    assert_eq!(sent_to(&out, stale), vec![&Message::Bye]);
    assert_eq!(sent_to(&out, a), vec![&Message::DeleteClient(stale)]);
}

/// Before the counter fires, even an idle peer stays.
#[test]
fn no_sweep_before_interval() {
    let a = addr(1, 1000);
    let stale = addr(2, 2000);
    let now: u64 = 600_000;
    let mut relay = RelayState {
        clients: vec![
            ClientInfo { addr: a, last_active: now - 1000 },
            ClientInfo { addr: stale, last_active: now - 500_000 },
        ],
        check_counter: 0,
    };
    let out = handle_datagram(&mut relay, a, &encode_message(&Message::Ping), now);
    assert_eq!(out.len(), 0);
    assert_eq!(relay.check_counter, 1);
    assert_eq!(relay.clients.len(), 2);
}
