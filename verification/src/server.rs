//! Wire protocol and relay logic.
//!
//! Every datagram carries exactly one [`Message`], encoded as a one-byte tag
//! followed by the payload. The decoder is total: any byte buffer decodes to
//! some message, with malformed input collected in [`Message::Unknown`].
use vstd::prelude::*;
use vstd::bytes::*;
use vstd::slice::{slice_subrange, slice_to_vec};

use crate::PeerAddr;

verus! {

/// One wire message. `Audio` is what clients send; the relay rewrites it to
/// `AudioFrom` carrying the originator's address before fan-out.
/// `Hello`/`NewClient`/`DeleteClient` form the membership subprotocol, and
/// `Unknown` is the decoder's error sink.
#[derive(Debug, PartialEq)]
pub enum Message {
    Audio(Vec<u8>),
    AudioFrom(PeerAddr, Vec<u8>),
    Ping,
    Hello(PeerAddr),
    NewClient(PeerAddr),
    DeleteClient(PeerAddr),
    Bye,
    Unknown(Vec<u8>),
}

/// The mathematical model of a [`Message`]: payloads as byte sequences.
pub enum MessageView {
    Audio(Seq<u8>),
    AudioFrom(PeerAddr, Seq<u8>),
    Ping,
    Hello(PeerAddr),
    NewClient(PeerAddr),
    DeleteClient(PeerAddr),
    Bye,
    Unknown(Seq<u8>),
}

impl View for Message {
    type V = MessageView;

    open spec fn view(&self) -> MessageView {
        match self {
            Message::Audio(data) => MessageView::Audio(data@),
            Message::AudioFrom(addr, data) => MessageView::AudioFrom(*addr, data@),
            Message::Ping => MessageView::Ping,
            Message::Hello(addr) => MessageView::Hello(*addr),
            Message::NewClient(addr) => MessageView::NewClient(*addr),
            Message::DeleteClient(addr) => MessageView::DeleteClient(*addr),
            Message::Bye => MessageView::Bye,
            Message::Unknown(data) => MessageView::Unknown(data@),
        }
    }
}

pub const TAG_AUDIO: u8 = 0;
pub const TAG_AUDIO_FROM: u8 = 1;
pub const TAG_PING: u8 = 2;
pub const TAG_HELLO: u8 = 3;
pub const TAG_NEW_CLIENT: u8 = 4;
pub const TAG_DELETE_CLIENT: u8 = 5;
pub const TAG_BYE: u8 = 6;
pub const TAG_UNKNOWN: u8 = 7;

/// Bytes of a peer address on the wire: four little-endian IP bytes, then
/// two little-endian port bytes.
pub open spec fn spec_addr_bytes(a: PeerAddr) -> Seq<u8> {
    spec_u32_to_le_bytes(a.ip) + spec_u16_to_le_bytes(a.port)
}

/// The peer address read back from six wire bytes.
pub open spec fn spec_addr_from_bytes(s: Seq<u8>) -> PeerAddr
    recommends
        s.len() == 6,
{
    PeerAddr {
        ip: spec_u32_from_le_bytes(s.subrange(0, 4)),
        port: spec_u16_from_le_bytes(s.subrange(4, 6)),
    }
}

/// Reading an encoded address back yields the address that was written.
pub proof fn lemma_addr_bytes_roundtrip(a: PeerAddr)
    ensures
        spec_addr_bytes(a).len() == 6,
        spec_addr_from_bytes(spec_addr_bytes(a)) == a,
{
    lemma_auto_spec_u32_to_from_le_bytes();
    lemma_auto_spec_u16_to_from_le_bytes();
    assert(spec_addr_bytes(a).subrange(0, 4) =~= spec_u32_to_le_bytes(a.ip));
    assert(spec_addr_bytes(a).subrange(4, 6) =~= spec_u16_to_le_bytes(a.port));
}

/// The byte encoding of a message: a tag byte, then for the membership and
/// audio-attribution variants a six-byte address, then the payload.
pub open spec fn spec_encode(m: MessageView) -> Seq<u8> {
    match m {
        MessageView::Audio(data) => seq![TAG_AUDIO] + data,
        MessageView::AudioFrom(addr, data) => seq![TAG_AUDIO_FROM] + spec_addr_bytes(addr) + data,
        MessageView::Ping => seq![TAG_PING],
        MessageView::Hello(addr) => seq![TAG_HELLO] + spec_addr_bytes(addr),
        MessageView::NewClient(addr) => seq![TAG_NEW_CLIENT] + spec_addr_bytes(addr),
        MessageView::DeleteClient(addr) => seq![TAG_DELETE_CLIENT] + spec_addr_bytes(addr),
        MessageView::Bye => seq![TAG_BYE],
        MessageView::Unknown(data) => seq![TAG_UNKNOWN] + data,
    }
}

/// Total decoding of an arbitrary byte buffer. Truncated or over-long frames
/// and unknown tags all land in `Unknown` carrying a copy of the whole
/// buffer; an empty buffer yields `Unknown` of the empty sequence.
pub open spec fn spec_decode(b: Seq<u8>) -> MessageView {
    if b.len() == 0 {
        MessageView::Unknown(b)
    } else if b[0] == TAG_AUDIO {
        MessageView::Audio(b.skip(1))
    } else if b[0] == TAG_AUDIO_FROM {
        if b.len() >= 7 {
            MessageView::AudioFrom(spec_addr_from_bytes(b.subrange(1, 7)), b.skip(7))
        } else {
            MessageView::Unknown(b)
        }
    } else if b[0] == TAG_PING {
        if b.len() == 1 {
            MessageView::Ping
        } else {
            MessageView::Unknown(b)
        }
    } else if b[0] == TAG_HELLO {
        if b.len() == 7 {
            MessageView::Hello(spec_addr_from_bytes(b.skip(1)))
        } else {
            MessageView::Unknown(b)
        }
    } else if b[0] == TAG_NEW_CLIENT {
        if b.len() == 7 {
            MessageView::NewClient(spec_addr_from_bytes(b.skip(1)))
        } else {
            MessageView::Unknown(b)
        }
    } else if b[0] == TAG_DELETE_CLIENT {
        if b.len() == 7 {
            MessageView::DeleteClient(spec_addr_from_bytes(b.skip(1)))
        } else {
            MessageView::Unknown(b)
        }
    } else if b[0] == TAG_BYE {
        if b.len() == 1 {
            MessageView::Bye
        } else {
            MessageView::Unknown(b)
        }
    } else if b[0] == TAG_UNKNOWN {
        MessageView::Unknown(b.skip(1))
    } else {
        MessageView::Unknown(b)
    }
}

/// Decode is the left inverse of encode: every message survives the round
/// trip through its wire encoding unchanged.
pub proof fn lemma_decode_encode(m: MessageView)
    ensures
        spec_decode(spec_encode(m)) == m,
{
    match m {
        MessageView::Audio(data) => {
            assert((seq![TAG_AUDIO] + data).skip(1) =~= data);
        }
        MessageView::AudioFrom(addr, data) => {
            let b = seq![TAG_AUDIO_FROM] + spec_addr_bytes(addr) + data;
            lemma_addr_bytes_roundtrip(addr);
            assert(b.subrange(1, 7) =~= spec_addr_bytes(addr));
            assert(b.skip(7) =~= data);
        }
        MessageView::Ping => {
        }
        MessageView::Hello(addr) => {
            let b = seq![TAG_HELLO] + spec_addr_bytes(addr);
            lemma_addr_bytes_roundtrip(addr);
            assert(b.skip(1) =~= spec_addr_bytes(addr));
        }
        MessageView::NewClient(addr) => {
            let b = seq![TAG_NEW_CLIENT] + spec_addr_bytes(addr);
            lemma_addr_bytes_roundtrip(addr);
            assert(b.skip(1) =~= spec_addr_bytes(addr));
        }
        MessageView::DeleteClient(addr) => {
            let b = seq![TAG_DELETE_CLIENT] + spec_addr_bytes(addr);
            lemma_addr_bytes_roundtrip(addr);
            assert(b.skip(1) =~= spec_addr_bytes(addr));
        }
        MessageView::Bye => {
        }
        MessageView::Unknown(data) => {
            assert((seq![TAG_UNKNOWN] + data).skip(1) =~= data);
        }
    }
}

/// The payload bytes a message carries.
pub open spec fn spec_payload_len(m: MessageView) -> nat {
    match m {
        MessageView::Audio(data) => data.len(),
        MessageView::AudioFrom(_, data) => data.len(),
        MessageView::Unknown(data) => data.len(),
        _ => 0,
    }
}

/// Envelope law: every encoded message is its payload plus at most seven
/// envelope bytes, so one audio frame always fits a 4 KiB receive buffer.
pub proof fn lemma_encode_overhead(m: MessageView)
    ensures
        spec_encode(m).len() <= spec_payload_len(m) + 7,
{
    match m {
        MessageView::AudioFrom(addr, _) => {
            lemma_addr_bytes_roundtrip(addr);
        }
        MessageView::Hello(addr) => {
            lemma_addr_bytes_roundtrip(addr);
        }
        MessageView::NewClient(addr) => {
            lemma_addr_bytes_roundtrip(addr);
        }
        MessageView::DeleteClient(addr) => {
            lemma_addr_bytes_roundtrip(addr);
        }
        _ => {
        }
    }
}

/// Appends a copy of `src` to `dst`.
fn push_bytes(dst: &mut Vec<u8>, src: &Vec<u8>)
    ensures
        final(dst)@ == old(dst)@ + src@,
{
    let mut i: usize = 0;
    while i < src.len()
        invariant
            i <= src@.len(),
            dst@ == old(dst)@ + src@.take(i as int),
        decreases src@.len() - i,
    {
        dst.push(src[i]);
        assert(old(dst)@ + src@.take(i as int) + seq![src@[i as int]] =~= old(dst)@ + src@.take(
            i as int + 1,
        ));
        i = i + 1;
    }
    assert(old(dst)@ + src@.take(src@.len() as int) =~= old(dst)@ + src@);
}

/// Appends the six wire bytes of `addr` to `dst`.
fn push_addr(dst: &mut Vec<u8>, addr: &PeerAddr)
    ensures
        final(dst)@ == old(dst)@ + spec_addr_bytes(*addr),
{
    let mut ip_bytes = u32_to_le_bytes(addr.ip);
    let mut port_bytes = u16_to_le_bytes(addr.port);
    dst.append(&mut ip_bytes);
    dst.append(&mut port_bytes);
    assert(old(dst)@ + spec_u32_to_le_bytes(addr.ip) + spec_u16_to_le_bytes(addr.port) =~= old(
        dst,
    )@ + spec_addr_bytes(*addr));
}

/// Encodes a message to the byte buffer that goes out as one datagram.
pub fn encode_message(msg: &Message) -> (r: Vec<u8>)
    ensures
        r@ == spec_encode(msg@),
{
    let mut r: Vec<u8> = Vec::new();
    match msg {
        Message::Audio(data) => {
            r.push(TAG_AUDIO);
            push_bytes(&mut r, data);
            assert(r@ =~= seq![TAG_AUDIO] + data@);
        }
        Message::AudioFrom(addr, data) => {
            r.push(TAG_AUDIO_FROM);
            push_addr(&mut r, addr);
            push_bytes(&mut r, data);
            assert(r@ =~= seq![TAG_AUDIO_FROM] + spec_addr_bytes(*addr) + data@);
        }
        Message::Ping => {
            r.push(TAG_PING);
            assert(r@ =~= seq![TAG_PING]);
        }
        Message::Hello(addr) => {
            r.push(TAG_HELLO);
            push_addr(&mut r, addr);
            assert(r@ =~= seq![TAG_HELLO] + spec_addr_bytes(*addr));
        }
        Message::NewClient(addr) => {
            r.push(TAG_NEW_CLIENT);
            push_addr(&mut r, addr);
            assert(r@ =~= seq![TAG_NEW_CLIENT] + spec_addr_bytes(*addr));
        }
        Message::DeleteClient(addr) => {
            r.push(TAG_DELETE_CLIENT);
            push_addr(&mut r, addr);
            assert(r@ =~= seq![TAG_DELETE_CLIENT] + spec_addr_bytes(*addr));
        }
        Message::Bye => {
            r.push(TAG_BYE);
            assert(r@ =~= seq![TAG_BYE]);
        }
        Message::Unknown(data) => {
            r.push(TAG_UNKNOWN);
            push_bytes(&mut r, data);
            assert(r@ =~= seq![TAG_UNKNOWN] + data@);
        }
    }
    r
}

/// Copies the bytes of `buf` from `from` to the end into a fresh vector.
fn suffix_vec(buf: &[u8], from: usize) -> (r: Vec<u8>)
    requires
        from <= buf@.len(),
    ensures
        r@ == buf@.skip(from as int),
{
    let r = slice_to_vec(slice_subrange(buf, from, buf.len()));
    assert(buf@.subrange(from as int, buf@.len() as int) =~= buf@.skip(from as int));
    r
}

/// Reads the six-byte wire form of a peer address starting at `at`.
fn read_addr(buf: &[u8], at: usize) -> (a: PeerAddr)
    requires
        at + 6 <= buf@.len(),
    ensures
        a == spec_addr_from_bytes(buf@.subrange(at as int, at as int + 6)),
{
    let n: usize = buf.len();
    assert(at + 6 <= n);
    let ip = u32_from_le_bytes(slice_subrange(buf, at, at + 4));
    let port = u16_from_le_bytes(slice_subrange(buf, at + 4, at + 6));
    proof {
        let window = buf@.subrange(at as int, at as int + 6);
        assert(buf@.subrange(at as int, at as int + 4) =~= window.subrange(0, 4));
        assert(buf@.subrange(at as int + 4, at as int + 6) =~= window.subrange(4, 6));
    }
    PeerAddr { ip, port }
}

/// Decodes one received datagram. Never fails: anything that is not a
/// well-formed frame comes back as `Unknown` with a copy of the buffer.
pub fn decode_message(buf: &[u8]) -> (r: Message)
    ensures
        r@ == spec_decode(buf@),
{
    let n: usize = buf.len();
    if n == 0 {
        assert(buf@ =~= Seq::<u8>::empty());
        return Message::Unknown(Vec::new());
    }
    let tag: u8 = *vstd::slice::slice_index_get(buf, 0);
    if tag == TAG_AUDIO {
        Message::Audio(suffix_vec(buf, 1))
    } else if tag == TAG_AUDIO_FROM {
        if n >= 7 {
            let addr = read_addr(buf, 1);
            Message::AudioFrom(addr, suffix_vec(buf, 7))
        } else {
            Message::Unknown(slice_to_vec(buf))
        }
    } else if tag == TAG_PING {
        if n == 1 {
            Message::Ping
        } else {
            Message::Unknown(slice_to_vec(buf))
        }
    } else if tag == TAG_HELLO {
        if n == 7 {
            let addr = read_addr(buf, 1);
            assert(buf@.subrange(1, 7) =~= buf@.skip(1));
            Message::Hello(addr)
        } else {
            Message::Unknown(slice_to_vec(buf))
        }
    } else if tag == TAG_NEW_CLIENT {
        if n == 7 {
            let addr = read_addr(buf, 1);
            assert(buf@.subrange(1, 7) =~= buf@.skip(1));
            Message::NewClient(addr)
        } else {
            Message::Unknown(slice_to_vec(buf))
        }
    } else if tag == TAG_DELETE_CLIENT {
        if n == 7 {
            let addr = read_addr(buf, 1);
            assert(buf@.subrange(1, 7) =~= buf@.skip(1));
            Message::DeleteClient(addr)
        } else {
            Message::Unknown(slice_to_vec(buf))
        }
    } else if tag == TAG_BYE {
        if n == 1 {
            Message::Bye
        } else {
            Message::Unknown(slice_to_vec(buf))
        }
    } else if tag == TAG_UNKNOWN {
        Message::Unknown(suffix_vec(buf, 1))
    } else {
        Message::Unknown(slice_to_vec(buf))
    }
}

/// One registered peer: its address and the time of its last datagram.
#[derive(Clone, Copy, Debug, PartialEq, Eq, Structural)]
pub struct ClientInfo {
    pub addr: PeerAddr,
    /// Milliseconds on the relay's monotonic clock.
    pub last_active: u64,
}

/// The relay's whole state: the membership table and the countdown to the
/// next idle sweep.
pub struct RelayState {
    pub clients: Vec<ClientInfo>,
    pub check_counter: u32,
}

/// One datagram the relay wants sent: to whom, and which message.
#[derive(Debug, PartialEq)]
pub struct Outgoing {
    pub dest: PeerAddr,
    pub msg: Message,
}

/// Model of an [`Outgoing`] datagram.
pub struct OutgoingView {
    pub dest: PeerAddr,
    pub msg: MessageView,
}

impl View for Outgoing {
    type V = OutgoingView;

    open spec fn view(&self) -> OutgoingView {
        OutgoingView { dest: self.dest, msg: self.msg@ }
    }
}

pub open spec fn outgoing_views(s: Seq<Outgoing>) -> Seq<OutgoingView>
    decreases s.len(),
{
    if s.len() == 0 {
        Seq::empty()
    } else {
        outgoing_views(s.drop_last()).push(s.last()@)
    }
}

pub proof fn lemma_outgoing_views_push(s: Seq<Outgoing>, o: Outgoing)
    ensures
        outgoing_views(s.push(o)) == outgoing_views(s).push(o@),
{
    assert(s.push(o).drop_last() =~= s);
    assert(s.push(o).last() == o);
}


/// Datagrams between two sweeps of the membership table.
pub const SWEEP_INTERVAL: u32 = 100;

/// A peer this long without a datagram is swept out.
pub const IDLE_TIMEOUT_MS: u64 = 500000;

pub open spec fn contains_addr(clients: Seq<ClientInfo>, addr: PeerAddr) -> bool {
    exists|i: int| 0 <= i < clients.len() && clients[i].addr == addr
}

pub open spec fn unique_addrs(clients: Seq<ClientInfo>) -> bool {
    forall|i: int, j: int|
        0 <= i < j < clients.len() ==> clients[i].addr != clients[j].addr
}

/// No entry's `last_active` lies in the future of `now`.
pub open spec fn all_seen_by(clients: Seq<ClientInfo>, now: u64) -> bool {
    forall|i: int| 0 <= i < clients.len() ==> clients[i].last_active <= now
}

/// The relay's internal invariant: addresses unique, sweep countdown in
/// range.
pub open spec fn relay_wf(s: RelayState) -> bool {
    &&& unique_addrs(s.clients@)
    &&& s.check_counter < SWEEP_INTERVAL
}

pub open spec fn is_stale(c: ClientInfo, now: u64) -> bool {
    c.last_active + IDLE_TIMEOUT_MS <= now
}

/// The membership table after one datagram from `sender`: refresh the
/// sender's entry if present, append a fresh entry otherwise.
pub open spec fn spec_touch(clients: Seq<ClientInfo>, sender: PeerAddr, now: u64) -> Seq<
    ClientInfo,
> {
    if contains_addr(clients, sender) {
        clients.map_values(
            |c: ClientInfo|
                if c.addr == sender {
                    ClientInfo { addr: c.addr, last_active: now }
                } else {
                    c
                },
        )
    } else {
        clients.push(ClientInfo { addr: sender, last_active: now })
    }
}

/// The addresses of all entries idle beyond the timeout, in table order.
pub open spec fn spec_stale_addrs(clients: Seq<ClientInfo>, now: u64) -> Seq<PeerAddr>
    decreases clients.len(),
{
    if clients.len() == 0 {
        Seq::empty()
    } else {
        let prefix = spec_stale_addrs(clients.drop_last(), now);
        if is_stale(clients.last(), now) {
            prefix.push(clients.last().addr)
        } else {
            prefix
        }
    }
}

/// The table with every entry for `addr` removed.
pub open spec fn spec_remove_addr(clients: Seq<ClientInfo>, addr: PeerAddr) -> Seq<ClientInfo>
    decreases clients.len(),
{
    if clients.len() == 0 {
        Seq::empty()
    } else {
        let prefix = spec_remove_addr(clients.drop_last(), addr);
        if clients.last().addr == addr {
            prefix
        } else {
            prefix.push(clients.last())
        }
    }
}

/// One `DeleteClient(addr)` notice per remaining peer, in table order.
pub open spec fn spec_delete_notes(remaining: Seq<ClientInfo>, addr: PeerAddr) -> Seq<OutgoingView>
    decreases remaining.len(),
{
    if remaining.len() == 0 {
        Seq::empty()
    } else {
        spec_delete_notes(remaining.drop_last(), addr).push(
            OutgoingView { dest: remaining.last().addr, msg: MessageView::DeleteClient(addr) },
        )
    }
}

/// The farewell traffic for removing `addr`: if an entry went, a `Bye` to
/// the removed peer and a `DeleteClient` to each peer still in the table.
pub open spec fn spec_remove_outputs(
    remaining: Seq<ClientInfo>,
    addr: PeerAddr,
    removed: bool,
) -> Seq<OutgoingView> {
    if removed {
        seq![OutgoingView { dest: addr, msg: MessageView::Bye }] + spec_delete_notes(
            remaining,
            addr,
        )
    } else {
        Seq::empty()
    }
}

/// Removes the listed addresses one after the other, gathering the farewell
/// traffic of each step; yields the final table and all traffic in order.
pub open spec fn spec_remove_all(clients: Seq<ClientInfo>, addrs: Seq<PeerAddr>) -> (Seq<
    ClientInfo,
>, Seq<OutgoingView>)
    decreases addrs.len(),
{
    if addrs.len() == 0 {
        (clients, Seq::empty())
    } else {
        let removed = contains_addr(clients, addrs[0]);
        let after = spec_remove_addr(clients, addrs[0]);
        let out_here = spec_remove_outputs(after, addrs[0], removed);
        let (rest_clients, rest_out) = spec_remove_all(after, addrs.skip(1));
        (rest_clients, out_here + rest_out)
    }
}

/// The audio fan-out: one `AudioFrom(sender, data)` to each registered peer
/// other than the sender, in table order.
pub open spec fn spec_fanout(clients: Seq<ClientInfo>, sender: PeerAddr, data: Seq<u8>) -> Seq<
    OutgoingView,
>
    decreases clients.len(),
{
    if clients.len() == 0 {
        Seq::empty()
    } else {
        let prefix = spec_fanout(clients.drop_last(), sender, data);
        if clients.last().addr != sender {
            prefix.push(
                OutgoingView {
                    dest: clients.last().addr,
                    msg: MessageView::AudioFrom(sender, data),
                },
            )
        } else {
            prefix
        }
    }
}

/// The membership notifications for a newly registered `sender`: for each
/// other peer, a `NewClient(sender)` to that peer and a `NewClient(peer)`
/// back to the sender, in table order.
pub open spec fn spec_hello_notifications(clients: Seq<ClientInfo>, sender: PeerAddr) -> Seq<
    OutgoingView,
>
    decreases clients.len(),
{
    if clients.len() == 0 {
        Seq::empty()
    } else {
        let prefix = spec_hello_notifications(clients.drop_last(), sender);
        if clients.last().addr != sender {
            prefix + seq![
                OutgoingView {
                    dest: clients.last().addr,
                    msg: MessageView::NewClient(sender),
                },
                OutgoingView { dest: sender, msg: MessageView::NewClient(clients.last().addr) },
            ]
        } else {
            prefix
        }
    }
}

/// Whether some entry in the table carries this address.
pub fn contains_client(clients: &Vec<ClientInfo>, addr: &PeerAddr) -> (r: bool)
    ensures
        r == contains_addr(clients@, *addr),
{
    let mut i: usize = 0;
    while i < clients.len()
        invariant
            i <= clients@.len(),
            forall|k: int| 0 <= k < i ==> clients@[k].addr != *addr,
        decreases clients@.len() - i,
    {
        if clients[i].addr == *addr {
            return true;
        }
        i = i + 1;
    }
    false
}

/// Refreshes the sender's `last_active`, or appends a fresh entry when the
/// sender is unknown; reports whether the sender was new.
fn touch_membership(clients: &mut Vec<ClientInfo>, sender: PeerAddr, now: u64) -> (is_new: bool)
    ensures
        final(clients)@ == spec_touch(old(clients)@, sender, now),
        is_new == !contains_addr(old(clients)@, sender),
{
    let ghost orig = clients@;
    let n: usize = clients.len();
    let mut i: usize = 0;
    let mut found = false;
    while i < n
        invariant
            i <= n,
            n == orig.len(),
            clients@.len() == orig.len(),
            found == exists|k: int| 0 <= k < i && orig[k].addr == sender,
            forall|k: int|
                0 <= k < i ==> clients@[k] == (if orig[k].addr == sender {
                    ClientInfo { addr: orig[k].addr, last_active: now }
                } else {
                    orig[k]
                }),
            forall|k: int| i <= k < orig.len() ==> clients@[k] == orig[k],
        decreases n - i,
    {
        if clients[i].addr == sender {
            let refreshed = ClientInfo { addr: sender, last_active: now };
            clients.set(i, refreshed);
            found = true;
        }
        i = i + 1;
    }
    if found {
        proof {
            assert(contains_addr(orig, sender));
            assert(clients@ =~= spec_touch(orig, sender, now));
        }
        false
    } else {
        proof {
            assert(!contains_addr(orig, sender));
            assert(clients@ =~= orig);
        }
        clients.push(ClientInfo { addr: sender, last_active: now });
        true
    }
}

/// Collects the addresses of all entries idle beyond the timeout.
fn collect_stale(clients: &Vec<ClientInfo>, now: u64) -> (stale: Vec<PeerAddr>)
    requires
        all_seen_by(clients@, now),
    ensures
        stale@ == spec_stale_addrs(clients@, now),
{
    let mut stale: Vec<PeerAddr> = Vec::new();
    let mut i: usize = 0;
    while i < clients.len()
        invariant
            i <= clients@.len(),
            all_seen_by(clients@, now),
            stale@ == spec_stale_addrs(clients@.take(i as int), now),
        decreases clients@.len() - i,
    {
        let c = clients[i];
        if now - c.last_active >= IDLE_TIMEOUT_MS {
            stale.push(c.addr);
        }
        proof {
            assert(clients@.take(i + 1).drop_last() =~= clients@.take(i as int));
            assert(clients@.take(i + 1).last() == clients@[i as int]);
        }
        i = i + 1;
    }
    proof {
        assert(clients@.take(clients@.len() as int) =~= clients@);
    }
    stale
}

/// Copies a byte buffer.
fn copy_bytes(src: &Vec<u8>) -> (r: Vec<u8>)
    ensures
        r@ == src@,
{
    slice_to_vec(src.as_slice())
}

/// Removes `addr` from the table; when an entry went, queues a `Bye` to the
/// removed peer and a `DeleteClient(addr)` to each remaining peer.
pub fn remove_client(clients: &mut Vec<ClientInfo>, addr: &PeerAddr, out: &mut Vec<Outgoing>)
    ensures
        final(clients)@ == spec_remove_addr(old(clients)@, *addr),
        outgoing_views(final(out)@) == outgoing_views(old(out)@) + spec_remove_outputs(
            spec_remove_addr(old(clients)@, *addr),
            *addr,
            contains_addr(old(clients)@, *addr),
        ),
{
    let ghost orig = clients@;
    let mut kept: Vec<ClientInfo> = Vec::new();
    let mut i: usize = 0;
    while i < clients.len()
        invariant
            i <= clients@.len(),
            clients@ == orig,
            kept@ == spec_remove_addr(orig.take(i as int), *addr),
        decreases clients@.len() - i,
    {
        let c = clients[i];
        proof {
            assert(orig.take(i + 1).drop_last() =~= orig.take(i as int));
            assert(orig.take(i + 1).last() == orig[i as int]);
        }
        if c.addr != *addr {
            kept.push(c);
        }
        i = i + 1;
    }
    proof {
        assert(orig.take(orig.len() as int) =~= orig);
    }
    let removed = kept.len() < clients.len();
    proof {
        lemma_remove_addr_len(orig, *addr);
    }
    *clients = kept;
    if removed {
        let ghost before_bye = out@;
        let bye = Outgoing { dest: *addr, msg: Message::Bye };
        let ghost bye_snap = bye;
        out.push(bye);
        proof {
            lemma_outgoing_views_push(before_bye, bye_snap);
        }
        let ghost mid = out@;
        let mut i: usize = 0;
        while i < clients.len()
            invariant
                i <= clients@.len(),
                clients@ == spec_remove_addr(orig, *addr),
                outgoing_views(out@) == outgoing_views(mid) + spec_delete_notes(
                    clients@.take(i as int),
                    *addr,
                ),
            decreases clients@.len() - i,
        {
            let ghost prev = out@;
            let note = Outgoing { dest: clients[i].addr, msg: Message::DeleteClient(*addr) };
            let ghost note_snap = note;
            out.push(note);
            proof {
                lemma_outgoing_views_push(prev, note_snap);
                assert(clients@.take(i + 1).drop_last() =~= clients@.take(i as int));
                assert(clients@.take(i + 1).last() == clients@[i as int]);
                assert(outgoing_views(out@) =~= outgoing_views(mid) + spec_delete_notes(
                    clients@.take(i + 1),
                    *addr,
                ));
            }
            i = i + 1;
        }
        proof {
            assert(clients@.take(clients@.len() as int) =~= clients@);
            assert(outgoing_views(out@) =~= outgoing_views(old(out)@) + spec_remove_outputs(
                spec_remove_addr(orig, *addr),
                *addr,
                contains_addr(orig, *addr),
            ));
        }
    } else {
        proof {
            assert(!contains_addr(orig, *addr));
            assert(outgoing_views(out@) =~= outgoing_views(old(out)@) + spec_remove_outputs(
                spec_remove_addr(orig, *addr),
                *addr,
                contains_addr(orig, *addr),
            ));
        }
    }
}

/// A removal shrinks the table exactly when the address was present.
proof fn lemma_remove_addr_len(clients: Seq<ClientInfo>, addr: PeerAddr)
    ensures
        spec_remove_addr(clients, addr).len() <= clients.len(),
        (spec_remove_addr(clients, addr).len() < clients.len()) == contains_addr(clients, addr),
    decreases clients.len(),
{
    if clients.len() > 0 {
        lemma_remove_addr_len(clients.drop_last(), addr);
        assert(contains_addr(clients, addr) == (clients.last().addr == addr || contains_addr(
            clients.drop_last(),
            addr,
        ))) by {
            if contains_addr(clients, addr) {
                let i = choose|i: int|
                    0 <= i < clients.len() && clients[i].addr == addr;
                if i < clients.len() - 1 {
                    assert(clients.drop_last()[i].addr == addr);
                }
            }
            if contains_addr(clients.drop_last(), addr) {
                let i = choose|i: int|
                    0 <= i < clients.drop_last().len() && clients.drop_last()[i].addr == addr;
                assert(clients[i].addr == addr);
            }
        }
    }
}

/// The model of one whole relay step on one inbound datagram.
pub struct RelayStep {
    pub clients: Seq<ClientInfo>,
    pub counter: int,
    pub out: Seq<OutgoingView>,
}

/// One relay step: refresh or insert the sender's entry, run the idle sweep
/// every `SWEEP_INTERVAL` datagrams, then dispatch on the decoded message.
pub open spec fn spec_handle_datagram(
    clients0: Seq<ClientInfo>,
    counter0: int,
    sender: PeerAddr,
    data: Seq<u8>,
    now: u64,
) -> RelayStep {
    let is_new = !contains_addr(clients0, sender);
    let clients1 = spec_touch(clients0, sender, now);
    let swept = counter0 + 1 >= SWEEP_INTERVAL;
    let (clients2, sweep_out) = if swept {
        spec_remove_all(clients1, spec_stale_addrs(clients1, now))
    } else {
        (clients1, Seq::<OutgoingView>::empty())
    };
    let counter1 = if swept {
        0
    } else {
        counter0 + 1
    };
    match spec_decode(data) {
        MessageView::Audio(d) => RelayStep {
            clients: clients2,
            counter: counter1,
            out: sweep_out + spec_fanout(clients2, sender, d),
        },
        MessageView::Hello(a) => RelayStep {
            clients: clients2,
            counter: counter1,
            out: sweep_out + seq![
                OutgoingView { dest: sender, msg: MessageView::Hello(a) },
            ] + if is_new {
                spec_hello_notifications(clients2, sender)
            } else {
                Seq::empty()
            },
        },
        MessageView::Bye => {
            let removed = contains_addr(clients2, sender);
            let clients3 = spec_remove_addr(clients2, sender);
            RelayStep {
                clients: clients3,
                counter: counter1,
                out: sweep_out + spec_remove_outputs(clients3, sender, removed),
            }
        },
        _ => RelayStep { clients: clients2, counter: counter1, out: sweep_out },
    }
}

/// Every entry of the table after a removal stood in the table before it,
/// and none of them carries the removed address.
proof fn lemma_remove_addr_members(clients: Seq<ClientInfo>, addr: PeerAddr)
    ensures
        forall|x: ClientInfo| #[trigger]
            spec_remove_addr(clients, addr).contains(x) ==> clients.contains(x) && x.addr != addr,
    decreases clients.len(),
{
    if clients.len() > 0 {
        lemma_remove_addr_members(clients.drop_last(), addr);
        assert forall|x: ClientInfo| #[trigger]
            spec_remove_addr(clients, addr).contains(x) implies clients.contains(x) && x.addr
            != addr by {
            let r = spec_remove_addr(clients, addr);
            let prefix = spec_remove_addr(clients.drop_last(), addr);
            let i = choose|i: int| 0 <= i < r.len() && r[i] == x;
            if clients.last().addr == addr || i < r.len() - 1 {
                assert(prefix.contains(x));
                assert(clients.drop_last().contains(x));
                let j = choose|j: int|
                    0 <= j < clients.drop_last().len() && clients.drop_last()[j] == x;
                assert(clients[j] == x);
            } else {
                assert(x == clients.last());
            }
        }
    }
}

/// Removal keeps addresses unique and keeps every timestamp in the past.
proof fn lemma_remove_addr_wf(clients: Seq<ClientInfo>, addr: PeerAddr, now: u64)
    requires
        unique_addrs(clients),
        all_seen_by(clients, now),
    ensures
        unique_addrs(spec_remove_addr(clients, addr)),
        all_seen_by(spec_remove_addr(clients, addr), now),
    decreases clients.len(),
{
    lemma_remove_addr_members(clients, addr);
    let r = spec_remove_addr(clients, addr);
    assert forall|i: int| 0 <= i < r.len() implies r[i].last_active <= now by {
        assert(r.contains(r[i]));
        let j = choose|j: int| 0 <= j < clients.len() && clients[j] == r[i];
    }
    if clients.len() > 0 {
        assert(unique_addrs(clients.drop_last())) by {
            assert(forall|i: int|
                0 <= i < clients.len() - 1 ==> clients.drop_last()[i] == clients[i]);
        }
        assert(all_seen_by(clients.drop_last(), now)) by {
            assert(forall|i: int|
                0 <= i < clients.len() - 1 ==> clients.drop_last()[i] == clients[i]);
        }
        lemma_remove_addr_wf(clients.drop_last(), addr, now);
        let prefix = spec_remove_addr(clients.drop_last(), addr);
        if clients.last().addr != addr {
            lemma_remove_addr_members(clients.drop_last(), addr);
            assert forall|i: int, j: int| 0 <= i < j < r.len() implies r[i].addr != r[j].addr by {
                if j == r.len() - 1 {
                    assert(r[j] == clients.last());
                    assert(prefix.contains(prefix[i]));
                    assert(clients.drop_last().contains(prefix[i]));
                    let k = choose|k: int|
                        0 <= k < clients.drop_last().len() && clients.drop_last()[k] == prefix[i];
                    assert(clients[k] == prefix[i]);
                    assert(clients[k].addr != clients.last().addr);
                }
            }
        }
    }
}

/// Sweeping a list of addresses keeps the table well formed.
proof fn lemma_remove_all_wf(clients: Seq<ClientInfo>, addrs: Seq<PeerAddr>, now: u64)
    requires
        unique_addrs(clients),
        all_seen_by(clients, now),
    ensures
        unique_addrs(spec_remove_all(clients, addrs).0),
        all_seen_by(spec_remove_all(clients, addrs).0, now),
    decreases addrs.len(),
{
    if addrs.len() > 0 {
        lemma_remove_addr_wf(clients, addrs[0], now);
        lemma_remove_all_wf(spec_remove_addr(clients, addrs[0]), addrs.skip(1), now);
    }
}

/// Touching the table for `sender` keeps it well formed.
proof fn lemma_touch_wf(clients: Seq<ClientInfo>, sender: PeerAddr, now: u64)
    requires
        unique_addrs(clients),
        all_seen_by(clients, now),
    ensures
        unique_addrs(spec_touch(clients, sender, now)),
        all_seen_by(spec_touch(clients, sender, now), now),
        spec_touch(clients, sender, now).len() == clients.len() + (
        if contains_addr(clients, sender) {
            0int
        } else {
            1int
        }),
{
}

/// One relay step keeps the relay state well formed and its clock honest.
pub proof fn lemma_step_preserves_wf(
    clients0: Seq<ClientInfo>,
    counter0: int,
    sender: PeerAddr,
    data: Seq<u8>,
    now: u64,
)
    requires
        unique_addrs(clients0),
        all_seen_by(clients0, now),
        0 <= counter0 < SWEEP_INTERVAL,
    ensures
        ({
            let step = spec_handle_datagram(clients0, counter0, sender, data, now);
            &&& unique_addrs(step.clients)
            &&& all_seen_by(step.clients, now)
            &&& 0 <= step.counter < SWEEP_INTERVAL
        }),
{
    let clients1 = spec_touch(clients0, sender, now);
    lemma_touch_wf(clients0, sender, now);
    let swept = counter0 + 1 >= SWEEP_INTERVAL;
    let stale = spec_stale_addrs(clients1, now);
    if swept {
        lemma_remove_all_wf(clients1, stale, now);
        lemma_remove_addr_wf(spec_remove_all(clients1, stale).0, sender, now);
    } else {
        lemma_remove_addr_wf(clients1, sender, now);
    }
}

/// How many of the queued datagrams go to `dest`.
pub open spec fn count_to(out: Seq<OutgoingView>, dest: PeerAddr) -> nat
    decreases out.len(),
{
    if out.len() == 0 {
        0
    } else {
        count_to(out.drop_last(), dest) + if out.last().dest == dest {
            1nat
        } else {
            0nat
        }
    }
}

/// How many of the queued datagrams carry exactly this message to `dest`.
pub open spec fn count_msg(out: Seq<OutgoingView>, dest: PeerAddr, msg: MessageView) -> nat
    decreases out.len(),
{
    if out.len() == 0 {
        0
    } else {
        count_msg(out.drop_last(), dest, msg) + if out.last().dest == dest && out.last().msg
            == msg {
            1nat
        } else {
            0nat
        }
    }
}

/// How many table entries carry an address other than `sender`.
pub open spec fn count_others(clients: Seq<ClientInfo>, sender: PeerAddr) -> nat
    decreases clients.len(),
{
    if clients.len() == 0 {
        0
    } else {
        count_others(clients.drop_last(), sender) + if clients.last().addr != sender {
            1nat
        } else {
            0nat
        }
    }
}

/// Membership of an address splits over dropping the last entry.
proof fn lemma_contains_addr_drop_last(clients: Seq<ClientInfo>, addr: PeerAddr)
    requires
        clients.len() > 0,
    ensures
        contains_addr(clients, addr) == (clients.last().addr == addr || contains_addr(
            clients.drop_last(),
            addr,
        )),
{
    if contains_addr(clients, addr) {
        let i = choose|i: int| 0 <= i < clients.len() && clients[i].addr == addr;
        if i < clients.len() - 1 {
            assert(clients.drop_last()[i].addr == addr);
        }
    }
    if contains_addr(clients.drop_last(), addr) {
        let i = choose|i: int|
            0 <= i < clients.drop_last().len() && clients.drop_last()[i].addr == addr;
        assert(clients[i].addr == addr);
    }
}

/// Unique addresses remain unique after dropping the last entry, and the
/// last entry's address does not occur among the earlier ones.
proof fn lemma_unique_drop_last(clients: Seq<ClientInfo>)
    requires
        clients.len() > 0,
        unique_addrs(clients),
    ensures
        unique_addrs(clients.drop_last()),
        !contains_addr(clients.drop_last(), clients.last().addr),
{
    assert(forall|i: int| 0 <= i < clients.len() - 1 ==> clients.drop_last()[i] == clients[i]);
}

/// Fan-out law: an accepted audio datagram from `sender` turns into exactly
/// one `AudioFrom(sender, data)` for each registered peer other than the
/// sender, and into nothing for the sender itself.
pub proof fn lemma_fanout_exact(
    clients: Seq<ClientInfo>,
    sender: PeerAddr,
    data: Seq<u8>,
    p: PeerAddr,
)
    requires
        unique_addrs(clients),
    ensures
        count_to(spec_fanout(clients, sender, data), p) == if p != sender && contains_addr(
            clients,
            p,
        ) {
            1nat
        } else {
            0nat
        },
        forall|k: int|
            0 <= k < spec_fanout(clients, sender, data).len() ==> {
                &&& (#[trigger] spec_fanout(clients, sender, data)[k]).msg
                    == MessageView::AudioFrom(sender, data)
                &&& spec_fanout(clients, sender, data)[k].dest != sender
            },
    decreases clients.len(),
{
    if clients.len() > 0 {
        lemma_unique_drop_last(clients);
        lemma_contains_addr_drop_last(clients, p);
        lemma_fanout_exact(clients.drop_last(), sender, data, p);
        let prefix = spec_fanout(clients.drop_last(), sender, data);
        if clients.last().addr != sender {
            let entry = OutgoingView {
                dest: clients.last().addr,
                msg: MessageView::AudioFrom(sender, data),
            };
            assert(prefix.push(entry).drop_last() =~= prefix);
            assert(prefix.push(entry).last() == entry);
        }
    }
}

/// Membership law: the notifications for a newly registered `sender` tell
/// each existing peer exactly once about the newcomer, tell the newcomer
/// exactly once about each existing peer, and send the newcomer one message
/// per existing peer in total.
pub proof fn lemma_hello_notifications_exact(
    clients: Seq<ClientInfo>,
    sender: PeerAddr,
    p: PeerAddr,
)
    requires
        unique_addrs(clients),
        p != sender,
    ensures
        count_msg(spec_hello_notifications(clients, sender), p, MessageView::NewClient(sender))
            == if contains_addr(clients, p) {
            1nat
        } else {
            0nat
        },
        count_msg(spec_hello_notifications(clients, sender), sender, MessageView::NewClient(p))
            == if contains_addr(clients, p) {
            1nat
        } else {
            0nat
        },
        count_to(spec_hello_notifications(clients, sender), sender) == count_others(
            clients,
            sender,
        ),
    decreases clients.len(),
{
    if clients.len() > 0 {
        lemma_unique_drop_last(clients);
        lemma_contains_addr_drop_last(clients, p);
        lemma_hello_notifications_exact(clients.drop_last(), sender, p);
        let prefix = spec_hello_notifications(clients.drop_last(), sender);
        let c = clients.last();
        if c.addr != sender {
            let pair = seq![
                OutgoingView { dest: c.addr, msg: MessageView::NewClient(sender) },
                OutgoingView { dest: sender, msg: MessageView::NewClient(c.addr) },
            ];
            let whole = prefix + pair;
            assert(spec_hello_notifications(clients, sender) == whole);
            assert(whole.drop_last() =~= prefix.push(pair[0]));
            assert(whole.last() == pair[1]);
            assert(prefix.push(pair[0]).drop_last() =~= prefix);
            assert(prefix.push(pair[0]).last() == pair[0]);
            assert(count_msg(whole, p, MessageView::NewClient(sender)) == count_msg(
                prefix.push(pair[0]),
                p,
                MessageView::NewClient(sender),
            ));
            assert(count_msg(prefix.push(pair[0]), p, MessageView::NewClient(sender))
                == count_msg(prefix, p, MessageView::NewClient(sender)) + if c.addr == p {
                1nat
            } else {
                0nat
            });
            assert(count_msg(whole, sender, MessageView::NewClient(p)) == count_msg(
                prefix.push(pair[0]),
                sender,
                MessageView::NewClient(p),
            ) + if c.addr == p {
                1nat
            } else {
                0nat
            });
            assert(count_msg(prefix.push(pair[0]), sender, MessageView::NewClient(p)) == count_msg(
                prefix,
                sender,
                MessageView::NewClient(p),
            ));
            assert(count_to(whole, sender) == count_to(prefix.push(pair[0]), sender) + 1nat);
            assert(count_to(prefix.push(pair[0]), sender) == count_to(prefix, sender));
        } else {
            assert(spec_hello_notifications(clients, sender) == prefix);
        }
    }
}

/// Fan-out law at the step level: on a datagram that carries audio and does
/// not fire the sweep, the step's whole output is the fan-out — exactly one
/// `AudioFrom(sender, d)` per registered peer other than the sender, and
/// nothing addressed to the sender.
pub proof fn lemma_audio_step_fanout(
    clients0: Seq<ClientInfo>,
    counter0: int,
    sender: PeerAddr,
    d: Seq<u8>,
    data: Seq<u8>,
    now: u64,
    p: PeerAddr,
)
    requires
        unique_addrs(clients0),
        all_seen_by(clients0, now),
        0 <= counter0,
        counter0 + 1 < SWEEP_INTERVAL,
        spec_decode(data) == MessageView::Audio(d),
    ensures
        ({
            let step = spec_handle_datagram(clients0, counter0, sender, data, now);
            &&& count_to(step.out, p) == if p != sender && contains_addr(step.clients, p) {
                1nat
            } else {
                0nat
            }
            &&& forall|k: int|
                0 <= k < step.out.len() ==> {
                    &&& (#[trigger] step.out[k]).msg == MessageView::AudioFrom(sender, d)
                    &&& step.out[k].dest != sender
                }
        }),
{
    let step = spec_handle_datagram(clients0, counter0, sender, data, now);
    let clients1 = spec_touch(clients0, sender, now);
    lemma_touch_wf(clients0, sender, now);
    assert(step.out =~= spec_fanout(clients1, sender, d));
    lemma_fanout_exact(clients1, sender, d, p);
}

/// Every entry that survives a multi-address sweep stood in the table
/// before it, and its address is not among the swept ones.
proof fn lemma_remove_all_members(clients: Seq<ClientInfo>, addrs: Seq<PeerAddr>)
    ensures
        forall|x: ClientInfo| #[trigger]
            spec_remove_all(clients, addrs).0.contains(x) ==> clients.contains(x)
                && !addrs.contains(x.addr),
    decreases addrs.len(),
{
    if addrs.len() > 0 {
        let after = spec_remove_addr(clients, addrs[0]);
        lemma_remove_addr_members(clients, addrs[0]);
        lemma_remove_all_members(after, addrs.skip(1));
        assert forall|x: ClientInfo| #[trigger]
            spec_remove_all(clients, addrs).0.contains(x) implies clients.contains(x)
            && !addrs.contains(x.addr) by {
            assert(spec_remove_all(after, addrs.skip(1)).0.contains(x));
            assert(after.contains(x));
            assert(x.addr != addrs[0]);
            assert(!addrs.skip(1).contains(x.addr));
            if addrs.contains(x.addr) {
                let i = choose|i: int| 0 <= i < addrs.len() && addrs[i] == x.addr;
                assert(i != 0);
                assert(addrs.skip(1)[i - 1] == x.addr);
            }
        }
    }
}

/// Every entry idle beyond the timeout has its address on the sweep list.
proof fn lemma_stale_listed(clients: Seq<ClientInfo>, now: u64, x: ClientInfo)
    requires
        clients.contains(x),
        is_stale(x, now),
    ensures
        spec_stale_addrs(clients, now).contains(x.addr),
    decreases clients.len(),
{
    if clients.len() > 0 {
        let prefix = spec_stale_addrs(clients.drop_last(), now);
        if x == clients.last() {
            assert(spec_stale_addrs(clients, now).last() == x.addr);
        } else {
            let i = choose|i: int| 0 <= i < clients.len() && clients[i] == x;
            assert(clients.drop_last()[i] == x);
            assert(clients.drop_last().contains(x));
            lemma_stale_listed(clients.drop_last(), now, x);
            let j = choose|j: int| 0 <= j < prefix.len() && prefix[j] == x.addr;
            if is_stale(clients.last(), now) {
                assert(prefix.push(clients.last().addr)[j] == x.addr);
            }
        }
    }
}

/// Idle-sweep law: on the datagram that fires the sweep, every peer idle
/// beyond the timeout leaves the table.
pub proof fn lemma_sweep_removes_idle(
    clients0: Seq<ClientInfo>,
    counter0: int,
    sender: PeerAddr,
    data: Seq<u8>,
    now: u64,
)
    requires
        unique_addrs(clients0),
        all_seen_by(clients0, now),
        0 <= counter0,
        counter0 + 1 >= SWEEP_INTERVAL,
    ensures
        ({
            let step = spec_handle_datagram(clients0, counter0, sender, data, now);
            forall|i: int|
                0 <= i < step.clients.len() ==> !is_stale(#[trigger] step.clients[i], now)
        }),
{
    let step = spec_handle_datagram(clients0, counter0, sender, data, now);
    let clients1 = spec_touch(clients0, sender, now);
    let stale = spec_stale_addrs(clients1, now);
    let clients2 = spec_remove_all(clients1, stale).0;
    lemma_remove_all_members(clients1, stale);
    lemma_remove_addr_members(clients2, sender);
    assert forall|i: int|
        0 <= i < step.clients.len() implies !is_stale(#[trigger] step.clients[i], now) by {
        let e = step.clients[i];
        assert(step.clients.contains(e));
        if spec_decode(data) is Bye {
            assert(spec_remove_addr(clients2, sender).contains(e));
            assert(clients2.contains(e));
        } else {
            assert(clients2.contains(e));
        }
        if is_stale(e, now) {
            lemma_stale_listed(clients1, now, e);
        }
    }
}

impl RelayState {
    /// The relay's state at startup: empty table, full sweep countdown.
    pub fn new() -> (s: RelayState)
        ensures
            s.clients@ == Seq::<ClientInfo>::empty(),
            s.check_counter == 0,
            relay_wf(s),
    {
        RelayState { clients: Vec::new(), check_counter: 0 }
    }
}

/// Processes one inbound datagram against the membership table: refreshes or
/// registers the sender, runs the periodic idle sweep, and dispatches on the
/// decoded message. Returns the datagrams to send, in order.
pub fn handle_datagram(
    state: &mut RelayState,
    sender: PeerAddr,
    datagram: &[u8],
    now: u64,
) -> (out: Vec<Outgoing>)
    requires
        relay_wf(*old(state)),
        all_seen_by(old(state).clients@, now),
    ensures
        relay_wf(*final(state)),
        all_seen_by(final(state).clients@, now),
        ({
            let step = spec_handle_datagram(
                old(state).clients@,
                old(state).check_counter as int,
                sender,
                datagram@,
                now,
            );
            &&& final(state).clients@ == step.clients
            &&& final(state).check_counter as int == step.counter
            &&& outgoing_views(out@) == step.out
        }),
{
    let ghost clients0 = state.clients@;
    let ghost counter0 = state.check_counter as int;
    let ghost step = spec_handle_datagram(clients0, counter0, sender, datagram@, now);
    proof {
        lemma_step_preserves_wf(clients0, counter0, sender, datagram@, now);
    }
    let mut out: Vec<Outgoing> = Vec::new();
    let is_new = !contains_client(&state.clients, &sender);
    touch_membership(&mut state.clients, sender, now);
    let ghost clients1 = state.clients@;
    proof {
        lemma_touch_wf(clients0, sender, now);
    }
    state.check_counter = state.check_counter + 1;
    if state.check_counter >= SWEEP_INTERVAL {
        let stale = collect_stale(&state.clients, now);
        let ghost full = spec_remove_all(clients1, stale@);
        proof {
            assert(stale@.skip(0) =~= stale@);
            assert(outgoing_views(out@) =~= Seq::<OutgoingView>::empty());
            assert(full.1 =~= outgoing_views(out@) + full.1);
        }
        let n: usize = stale.len();
        let mut j: usize = 0;
        while j < n
            invariant
                j <= n,
                n == stale@.len(),
                full.0 == spec_remove_all(state.clients@, stale@.skip(j as int)).0,
                full.1 == outgoing_views(out@) + spec_remove_all(
                    state.clients@,
                    stale@.skip(j as int),
                ).1,
            decreases n - j,
        {
            let ghost cur = state.clients@;
            let ghost rest = stale@.skip(j as int);
            proof {
                assert(rest[0] == stale@[j as int]);
                assert(rest.skip(1) =~= stale@.skip(j as int + 1));
            }
            let addr = stale[j];
            remove_client(&mut state.clients, &addr, &mut out);
            proof {
                let here = spec_remove_outputs(
                    spec_remove_addr(cur, addr),
                    addr,
                    contains_addr(cur, addr),
                );
                let after = spec_remove_all(spec_remove_addr(cur, addr), stale@.skip(j as int + 1));
                assert(spec_remove_all(cur, rest).1 == here + after.1);
                assert(full.1 =~= outgoing_views(out@) + after.1);
            }
            j = j + 1;
        }
        proof {
            assert(stale@.skip(n as int) =~= Seq::<PeerAddr>::empty());
            assert(full.0 == state.clients@);
            assert(full.1 =~= outgoing_views(out@));
        }
        state.check_counter = 0;
    }
    let ghost clients2 = state.clients@;
    let ghost sweep_out = outgoing_views(out@);
    let msg = decode_message(datagram);
    match msg {
        Message::Audio(data) => {
            let ghost base = out@;
            let n: usize = state.clients.len();
            let mut i: usize = 0;
            while i < n
                invariant
                    i <= n,
                    n == state.clients@.len(),
                    state.clients@ == clients2,
                    outgoing_views(out@) == outgoing_views(base) + spec_fanout(
                        clients2.take(i as int),
                        sender,
                        data@,
                    ),
                decreases n - i,
            {
                let ghost prev = out@;
                proof {
                    assert(clients2.take(i + 1).drop_last() =~= clients2.take(i as int));
                    assert(clients2.take(i + 1).last() == clients2[i as int]);
                }
                let c = state.clients[i];
                if c.addr != sender {
                    let fwd = Outgoing {
                        dest: c.addr,
                        msg: Message::AudioFrom(sender, copy_bytes(&data)),
                    };
                    let ghost fwd_snap = fwd;
                    out.push(fwd);
                    proof {
                        lemma_outgoing_views_push(prev, fwd_snap);
                        assert(outgoing_views(out@) =~= outgoing_views(base) + spec_fanout(
                            clients2.take(i + 1),
                            sender,
                            data@,
                        ));
                    }
                }
                i = i + 1;
            }
            proof {
                assert(clients2.take(clients2.len() as int) =~= clients2);
                assert(outgoing_views(out@) =~= sweep_out + spec_fanout(clients2, sender, data@));
            }
        }
        Message::Hello(addr) => {
            let ghost before_echo = out@;
            let echo = Outgoing { dest: sender, msg: Message::Hello(addr) };
            let ghost echo_snap = echo;
            out.push(echo);
            proof {
                lemma_outgoing_views_push(before_echo, echo_snap);
            }
            let ghost base = out@;
            if is_new {
                let n: usize = state.clients.len();
                let mut i: usize = 0;
                while i < n
                    invariant
                        i <= n,
                        n == state.clients@.len(),
                        state.clients@ == clients2,
                        outgoing_views(out@) == outgoing_views(base) + spec_hello_notifications(
                            clients2.take(i as int),
                            sender,
                        ),
                    decreases n - i,
                {
                    proof {
                        assert(clients2.take(i + 1).drop_last() =~= clients2.take(i as int));
                        assert(clients2.take(i + 1).last() == clients2[i as int]);
                    }
                    let c = state.clients[i];
                    if c.addr != sender {
                        let ghost prev1 = out@;
                        let note_out = Outgoing { dest: c.addr, msg: Message::NewClient(sender) };
                        let ghost note_out_snap = note_out;
                        out.push(note_out);
                        proof {
                            lemma_outgoing_views_push(prev1, note_out_snap);
                        }
                        let ghost prev2 = out@;
                        let note_back = Outgoing { dest: sender, msg: Message::NewClient(c.addr) };
                        let ghost note_back_snap = note_back;
                        out.push(note_back);
                        proof {
                            lemma_outgoing_views_push(prev2, note_back_snap);
                            assert(outgoing_views(out@) =~= outgoing_views(base)
                                + spec_hello_notifications(clients2.take(i + 1), sender));
                        }
                    }
                    i = i + 1;
                }
                proof {
                    assert(clients2.take(clients2.len() as int) =~= clients2);
                    assert(outgoing_views(out@) =~= sweep_out + seq![
                        OutgoingView { dest: sender, msg: MessageView::Hello(addr) },
                    ] + spec_hello_notifications(clients2, sender));
                }
            } else {
                proof {
                    assert(outgoing_views(out@) =~= sweep_out + seq![
                        OutgoingView { dest: sender, msg: MessageView::Hello(addr) },
                    ] + Seq::<OutgoingView>::empty());
                }
            }
        }
        Message::Bye => {
            remove_client(&mut state.clients, &sender, &mut out);
            proof {
                assert(outgoing_views(out@) =~= sweep_out + spec_remove_outputs(
                    spec_remove_addr(clients2, sender),
                    sender,
                    contains_addr(clients2, sender),
                ));
            }
        }
        _ => {
            proof {
                assert(outgoing_views(out@) =~= sweep_out + Seq::<OutgoingView>::empty());
            }
        }
    }
    out
}

} // verus!
