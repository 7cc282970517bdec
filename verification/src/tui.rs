//! The terminal UI's view model: the client state band, the user list, and
//! how coordinator messages and key presses update them.
//!
//! Drawing is left to the terminal rendering adapter; this module owns every
//! state change the drawing reads.
use vstd::prelude::*;

use std::sync::mpsc::{Receiver, Sender};

use crate::ClientState;
use crate::PeerAddr;
use crate::channel_util::{channel_drain, channel_send};
use crate::client::{ClientMessage, ClientMessageView};

verus! {

/// A speaking flag older than this is cleared.
pub const SPEAKING_TIMEOUT_MS: u64 = 500;

/// One row of the user list.
#[derive(Clone, Copy, Debug, PartialEq, Eq)]
pub struct UserListEntry {
    pub addr: PeerAddr,
    pub is_speaking: bool,
    /// Milliseconds on the UI clock when audio last arrived from this peer.
    pub last_spoke: Option<u64>,
}

/// The bottom region of the screen: the peers and who is speaking.
#[derive(Debug)]
pub struct UserListWidget {
    pub users: Vec<UserListEntry>,
}

/// The terminal UI's state: the status band, the user list, and the
/// channels to and from the coordinator.
pub struct App {
    pub client_state: ClientState,
    pub main_widget: UserListWidget,
    pub rx: Receiver<ClientMessage>,
    pub tx_coordinator: Sender<ClientMessage>,
}

/// Whether some row carries this address.
pub open spec fn has_user(users: Seq<UserListEntry>, addr: PeerAddr) -> bool {
    exists|i: int| 0 <= i < users.len() && users[i].addr == addr
}

/// The user list with every row for `addr` removed.
pub open spec fn spec_remove_user(users: Seq<UserListEntry>, addr: PeerAddr) -> Seq<UserListEntry>
    decreases users.len(),
{
    if users.len() == 0 {
        Seq::empty()
    } else {
        let prefix = spec_remove_user(users.drop_last(), addr);
        if users.last().addr == addr {
            prefix
        } else {
            prefix.push(users.last())
        }
    }
}

/// The user list with the first row for `addr`, if any, marked speaking
/// as of `now`.
pub open spec fn spec_mark_speaking(
    users: Seq<UserListEntry>,
    addr: PeerAddr,
    now: u64,
) -> Seq<UserListEntry>
    decreases users.len(),
{
    if users.len() == 0 {
        users
    } else if users[0].addr == addr {
        seq![
            UserListEntry { addr: users[0].addr, is_speaking: true, last_spoke: Some(now) },
        ] + users.skip(1)
    } else {
        seq![users[0]] + spec_mark_speaking(users.skip(1), addr, now)
    }
}

/// Marking a row keeps the list's length.
proof fn lemma_mark_speaking_len(users: Seq<UserListEntry>, addr: PeerAddr, now: u64)
    ensures
        spec_mark_speaking(users, addr, now).len() == users.len(),
    decreases users.len(),
{
    if users.len() > 0 && users[0].addr != addr {
        lemma_mark_speaking_len(users.skip(1), addr, now);
    }
}

/// With no row for the address, marking changes nothing.
proof fn lemma_mark_speaking_absent(users: Seq<UserListEntry>, addr: PeerAddr, now: u64)
    requires
        !has_user(users, addr),
    ensures
        spec_mark_speaking(users, addr, now) == users,
    decreases users.len(),
{
    if users.len() > 0 {
        assert(users[0].addr != addr);
        assert(!has_user(users.skip(1), addr)) by {
            if has_user(users.skip(1), addr) {
                let k = choose|k: int|
                    0 <= k < users.skip(1).len() && users.skip(1)[k].addr == addr;
                assert(users[k + 1].addr == addr);
            }
        }
        lemma_mark_speaking_absent(users.skip(1), addr, now);
        assert(spec_mark_speaking(users, addr, now) =~= users);
    }
}

/// Marking distributes over appending one row at the end: the new row is
/// marked only when no earlier row already carried the address.
proof fn lemma_mark_speaking_push(
    users: Seq<UserListEntry>,
    c: UserListEntry,
    addr: PeerAddr,
    now: u64,
)
    ensures
        spec_mark_speaking(users.push(c), addr, now) == if has_user(users, addr) {
            spec_mark_speaking(users, addr, now).push(c)
        } else if c.addr == addr {
            users.push(UserListEntry { addr: c.addr, is_speaking: true, last_spoke: Some(now) })
        } else {
            users.push(c)
        },
    decreases users.len(),
{
    if users.len() == 0 {
        assert(users.push(c)[0] == c);
        assert(users.push(c).skip(1) =~= users);
        assert(spec_mark_speaking(users, addr, now) == users);
        if c.addr == addr {
            assert(spec_mark_speaking(users.push(c), addr, now) =~= users.push(
                UserListEntry { addr: c.addr, is_speaking: true, last_spoke: Some(now) },
            ));
        } else {
            assert(spec_mark_speaking(users.push(c), addr, now) =~= users.push(c));
        }
    } else {
        assert(users.push(c)[0] == users[0]);
        assert(users.push(c).skip(1) =~= users.skip(1).push(c));
        lemma_mark_speaking_push(users.skip(1), c, addr, now);
        assert(has_user(users, addr) == (users[0].addr == addr || has_user(
            users.skip(1),
            addr,
        ))) by {
            if has_user(users, addr) {
                let i = choose|i: int| 0 <= i < users.len() && users[i].addr == addr;
                if i > 0 {
                    assert(users.skip(1)[i - 1].addr == addr);
                }
            }
            if has_user(users.skip(1), addr) {
                let i = choose|i: int|
                    0 <= i < users.skip(1).len() && users.skip(1)[i].addr == addr;
                assert(users[i + 1].addr == addr);
            }
        }
        if users[0].addr == addr {
            assert(spec_mark_speaking(users.push(c), addr, now) =~= spec_mark_speaking(
                users,
                addr,
                now,
            ).push(c));
        } else if has_user(users.skip(1), addr) {
            assert(spec_mark_speaking(users.push(c), addr, now) =~= spec_mark_speaking(
                users,
                addr,
                now,
            ).push(c));
        } else if c.addr == addr {
            assert(spec_mark_speaking(users.push(c), addr, now) =~= users.push(
                UserListEntry { addr: c.addr, is_speaking: true, last_spoke: Some(now) },
            ));
        } else {
            assert(spec_mark_speaking(users.push(c), addr, now) =~= users.push(c));
        }
    }
}

/// One row after the speaking-age check: a speaking flag older than the
/// timeout is cleared, everything else stays.
pub open spec fn spec_age_user(u: UserListEntry, now: u64) -> UserListEntry {
    if u.is_speaking && (u.last_spoke matches Some(t) && t + SPEAKING_TIMEOUT_MS < now) {
        UserListEntry { addr: u.addr, is_speaking: false, last_spoke: u.last_spoke }
    } else {
        u
    }
}

/// The whole list after the speaking-age check.
pub open spec fn spec_age_speaking(users: Seq<UserListEntry>, now: u64) -> Seq<UserListEntry> {
    Seq::new(users.len(), |i: int| spec_age_user(users[i], now))
}

/// Clears speaking flags whose last audio lies further back than the
/// timeout; reports whether any row changed.
pub fn set_speaking_flags(users: &mut Vec<UserListEntry>, now: u64) -> (updated: bool)
    ensures
        final(users)@ == spec_age_speaking(old(users)@, now),
        updated == (final(users)@ != old(users)@),
{
    let ghost orig = users@;
    let n: usize = users.len();
    let mut updated = false;
    let mut i: usize = 0;
    while i < n
        invariant
            i <= n,
            n == users@.len() == orig.len(),
            forall|k: int| 0 <= k < i ==> users@[k] == spec_age_user(orig[k], now),
            forall|k: int| i <= k < n ==> users@[k] == orig[k],
            updated == exists|k: int| 0 <= k < i && spec_age_user(orig[k], now) != orig[k],
        decreases n - i,
    {
        let c = users[i];
        if c.is_speaking {
            match c.last_spoke {
                Some(t) => {
                    if t < now && now - t > SPEAKING_TIMEOUT_MS {
                        users.set(
                            i,
                            UserListEntry { addr: c.addr, is_speaking: false, last_spoke: Some(t) },
                        );
                        updated = true;
                    }
                }
                None => {}
            }
        }
        proof {
            assert(users@[i as int] == spec_age_user(orig[i as int], now));
        }
        i = i + 1;
    }
    proof {
        assert(users@ =~= spec_age_speaking(orig, now));
        if users@ != orig {
            assert(exists|k: int| 0 <= k < n && users@[k] != orig[k]) by {
                assert(!(users@ =~= orig));
            }
        }
    }
    updated
}

/// What one coordinator message does to the UI state: connection and
/// transmit flags update the status band, membership events edit the user
/// list, and received audio marks its source as speaking.
pub open spec fn spec_apply_tui_message(
    state: ClientState,
    users: Seq<UserListEntry>,
    m: ClientMessageView,
    now: u64,
) -> (ClientState, Seq<UserListEntry>) {
    match m {
        ClientMessageView::Connect => (
            ClientState {
                sending_audio: state.sending_audio,
                connected: true,
                mute: state.mute,
                deafen: state.deafen,
                exit: state.exit,
            },
            users,
        ),
        ClientMessageView::Disconnect => (
            ClientState {
                sending_audio: false,
                connected: false,
                mute: state.mute,
                deafen: state.deafen,
                exit: state.exit,
            },
            users,
        ),
        ClientMessageView::TransmitAudio(on) => (
            ClientState {
                sending_audio: on,
                connected: state.connected,
                mute: state.mute,
                deafen: state.deafen,
                exit: state.exit,
            },
            users,
        ),
        ClientMessageView::NewClient(addr) => (
            state,
            users.push(UserListEntry { addr, is_speaking: false, last_spoke: None }),
        ),
        ClientMessageView::DeleteClient(addr) => (state, spec_remove_user(users, addr)),
        ClientMessageView::RecvAudio(_, addr) => (state, spec_mark_speaking(users, addr, now)),
        _ => (state, users),
    }
}

/// Applies one coordinator message to the UI state.
pub fn apply_tui_message(
    state: &mut ClientState,
    users: &mut Vec<UserListEntry>,
    msg: ClientMessage,
    now: u64,
)
    ensures
        (*final(state), final(users)@) == spec_apply_tui_message(
            *old(state),
            old(users)@,
            msg@,
            now,
        ),
{
    match msg {
        ClientMessage::Connect => {
            state.connected = true;
        }
        ClientMessage::Disconnect => {
            state.connected = false;
            state.sending_audio = false;
        }
        ClientMessage::TransmitAudio(on) => {
            state.sending_audio = on;
        }
        ClientMessage::NewClient(addr) => {
            users.push(UserListEntry { addr, is_speaking: false, last_spoke: None });
        }
        ClientMessage::DeleteClient(addr) => {
            let ghost orig = users@;
            let n: usize = users.len();
            let mut kept: Vec<UserListEntry> = Vec::new();
            let mut i: usize = 0;
            while i < n
                invariant
                    i <= n,
                    n == users@.len(),
                    users@ == orig,
                    kept@ == spec_remove_user(orig.take(i as int), addr),
                decreases n - i,
            {
                let c = users[i];
                proof {
                    assert(orig.take(i + 1).drop_last() =~= orig.take(i as int));
                    assert(orig.take(i + 1).last() == orig[i as int]);
                }
                if c.addr != addr {
                    kept.push(c);
                }
                i = i + 1;
            }
            proof {
                assert(orig.take(n as int) =~= orig);
            }
            *users = kept;
        }
        ClientMessage::RecvAudio(_, addr) => {
            let ghost orig = users@;
            let n: usize = users.len();
            let mut i: usize = 0;
            let mut done = false;
            while i < n
                invariant
                    i <= n,
                    n == users@.len() == orig.len(),
                    done == has_user(orig.take(i as int), addr),
                    users@ == spec_mark_speaking(orig.take(i as int), addr, now) + orig.skip(
                        i as int,
                    ),
                decreases n - i,
            {
                let c = users[i];
                proof {
                    assert(orig.take(i + 1) =~= orig.take(i as int).push(orig[i as int]));
                    lemma_mark_speaking_push(orig.take(i as int), orig[i as int], addr, now);
                    lemma_mark_speaking_len(orig.take(i as int), addr, now);
                    lemma_mark_speaking_len(orig.take(i + 1), addr, now);
                    if !has_user(orig.take(i as int), addr) {
                        lemma_mark_speaking_absent(orig.take(i as int), addr, now);
                    }
                }
                if !done && c.addr == addr {
                    proof {
                        assert(c == orig[i as int]);
                    }
                    users.set(
                        i,
                        UserListEntry { addr: c.addr, is_speaking: true, last_spoke: Some(now) },
                    );
                    done = true;
                }
                proof {
                    assert(users@ =~= spec_mark_speaking(orig.take(i + 1), addr, now) + orig.skip(
                        i + 1,
                    ));
                    if has_user(orig.take(i as int), addr) {
                        assert(has_user(orig.take(i + 1), addr)) by {
                            let k = choose|k: int|
                                0 <= k < i && orig.take(i as int)[k].addr == addr;
                            assert(orig.take(i + 1)[k].addr == addr);
                        }
                    }
                    if orig[i as int].addr == addr {
                        assert(orig.take(i + 1)[i as int].addr == addr);
                        assert(has_user(orig.take(i + 1), addr));
                    }
                    if !has_user(orig.take(i as int), addr) && orig[i as int].addr != addr {
                        assert(!has_user(orig.take(i + 1), addr)) by {
                            if has_user(orig.take(i + 1), addr) {
                                let k = choose|k: int|
                                    0 <= k < i + 1 && (#[trigger] orig.take(i + 1)[k]).addr
                                        == addr;
                                if k < i {
                                    assert(orig.take(i as int)[k].addr == addr);
                                }
                            }
                        }
                    }
                }
                i = i + 1;
            }
            proof {
                assert(orig.take(n as int) =~= orig);
                assert(orig.skip(n as int) =~= Seq::<UserListEntry>::empty());
                assert(users@ =~= spec_mark_speaking(orig, addr, now));
            }
        }
        _ => {}
    }
}

/// A whole batch of coordinator messages applied in arrival order.
pub open spec fn spec_apply_tui_messages(
    state: ClientState,
    users: Seq<UserListEntry>,
    msgs: Seq<ClientMessageView>,
    now: u64,
) -> (ClientState, Seq<UserListEntry>)
    decreases msgs.len(),
{
    if msgs.len() == 0 {
        (state, users)
    } else {
        let (s1, u1) = spec_apply_tui_message(state, users, msgs[0], now);
        spec_apply_tui_messages(s1, u1, msgs.skip(1), now)
    }
}

/// The models of a batch of messages, in order.
pub open spec fn client_message_views(s: Seq<ClientMessage>) -> Seq<ClientMessageView>
    decreases s.len(),
{
    if s.len() == 0 {
        Seq::empty()
    } else {
        client_message_views(s.drop_last()).push(s.last()@)
    }
}

proof fn lemma_client_message_views_len(s: Seq<ClientMessage>)
    ensures
        client_message_views(s).len() == s.len(),
        forall|k: int| 0 <= k < s.len() ==> client_message_views(s)[k] == s[k]@,
    decreases s.len(),
{
    if s.len() > 0 {
        lemma_client_message_views_len(s.drop_last());
        assert(forall|k: int| 0 <= k < s.len() - 1 ==> s.drop_last()[k] == s[k]);
    }
}

impl App {
    /// A fresh UI over its two channels: default state, empty user list.
    pub fn new(rx: Receiver<ClientMessage>, tx_coordinator: Sender<ClientMessage>) -> (app: App)
        ensures
            app.client_state == (ClientState {
                sending_audio: false,
                connected: false,
                mute: false,
                deafen: false,
                exit: false,
            }),
            app.main_widget.users@ == Seq::<UserListEntry>::empty(),
    {
        App {
            client_state: ClientState::default(),
            main_widget: UserListWidget { users: Vec::new() },
            rx,
            tx_coordinator,
        }
    }

    /// Drains the pending coordinator messages and applies each in order;
    /// reports whether any arrived, so the caller knows to redraw.
    pub fn handle_tui_messages(&mut self, now: u64) -> (updated: bool)
        ensures
            exists|msgs: Seq<ClientMessageView>|
                {
                    &&& final(self).client_state == (#[trigger] spec_apply_tui_messages(
                        old(self).client_state,
                        old(self).main_widget.users@,
                        msgs,
                        now,
                    )).0
                    &&& final(self).main_widget.users@ == spec_apply_tui_messages(
                        old(self).client_state,
                        old(self).main_widget.users@,
                        msgs,
                        now,
                    ).1
                    &&& updated == (msgs.len() > 0)
                },
    {
        let mut drained = channel_drain(&self.rx);
        let ghost all = drained@;
        let ghost views = client_message_views(all);
        proof {
            lemma_client_message_views_len(all);
            assert(views.skip(0) =~= views);
            assert(all.skip(0) =~= all);
        }
        let ghost goal = spec_apply_tui_messages(
            self.client_state,
            self.main_widget.users@,
            views,
            now,
        );
        let n: usize = drained.len();
        let updated = n > 0;
        let mut i: usize = 0;
        while i < n
            invariant
                i <= n,
                n == all.len() == views.len(),
                forall|k: int| 0 <= k < n ==> views[k] == (#[trigger] all[k])@,
                drained@ == all.skip(i as int),
                goal == spec_apply_tui_messages(
                    self.client_state,
                    self.main_widget.users@,
                    views.skip(i as int),
                    now,
                ),
            decreases n - i,
        {
            let msg = drained.remove(0);
            proof {
                assert(all.skip(i as int)[0] == all[i as int]);
                assert(all.skip(i as int).remove(0) =~= all.skip(i as int + 1));
                assert(views.skip(i as int)[0] == views[i as int]);
                assert(views.skip(i as int).skip(1) =~= views.skip(i as int + 1));
            }
            apply_tui_message(&mut self.client_state, &mut self.main_widget.users, msg, now);
            i = i + 1;
        }
        proof {
            assert(views.skip(n as int) =~= Seq::<ClientMessageView>::empty());
            let (st, us) = spec_apply_tui_messages(
                old(self).client_state,
                old(self).main_widget.users@,
                views,
                now,
            );
            assert(self.client_state == st);
            assert(self.main_widget.users@ == us);
        }
        updated
    }

    /// Applies one key press: `d` toggles the deafen flag, `m` the mute
    /// flag, `q` asks for exit; each change is also reported to the
    /// coordinator, best effort. Any other key does nothing.
    pub fn handle_event(&mut self, key: char)
        ensures
            final(self).main_widget.users@ == old(self).main_widget.users@,
            (key == 'd' || key == 'D') ==> final(self).client_state == (ClientState {
                sending_audio: old(self).client_state.sending_audio,
                connected: old(self).client_state.connected,
                mute: old(self).client_state.mute,
                deafen: !old(self).client_state.deafen,
                exit: old(self).client_state.exit,
            }),
            (key == 'm' || key == 'M') ==> final(self).client_state == (ClientState {
                sending_audio: old(self).client_state.sending_audio,
                connected: old(self).client_state.connected,
                mute: !old(self).client_state.mute,
                deafen: old(self).client_state.deafen,
                exit: old(self).client_state.exit,
            }),
            (key == 'q' || key == 'Q') ==> final(self).client_state == (ClientState {
                sending_audio: old(self).client_state.sending_audio,
                connected: old(self).client_state.connected,
                mute: old(self).client_state.mute,
                deafen: old(self).client_state.deafen,
                exit: true,
            }),
            !(key == 'd' || key == 'D' || key == 'm' || key == 'M' || key == 'q' || key == 'Q')
                ==> final(self).client_state == old(self).client_state,
    {
        if key == 'd' || key == 'D' {
            self.client_state.deafen = !self.client_state.deafen;
            channel_send(&self.tx_coordinator, ClientMessage::ToggleDeafen);
        } else if key == 'm' || key == 'M' {
            self.client_state.mute = !self.client_state.mute;
            channel_send(&self.tx_coordinator, ClientMessage::ToggleMute);
        } else if key == 'q' || key == 'Q' {
            self.client_state.exit = true;
            channel_send(&self.tx_coordinator, ClientMessage::Exit);
        }
    }
}

} // verus!
