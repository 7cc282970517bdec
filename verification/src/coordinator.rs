//! The coordinator's routing matrix: where each client message travels.
use vstd::prelude::*;

use std::sync::mpsc::{Receiver, Sender};

use crate::PeerAddr;
use crate::channel_util::{channel_send, channel_try_recv};
use crate::client::{ClientMessage, ClientMessageView};
use crate::server::{Message, MessageView};

verus! {

/// One datagram the coordinator wants delivered, with its destination
/// channel.
#[derive(Debug, PartialEq)]
pub enum CoordinatorOutput {
    ToTui(ClientMessage),
    ToPlayback(ClientMessage),
    ToRecord(ClientMessage),
    ToNetOut(Message),
    /// Begin orderly shutdown: close the outbound channels.
    Shutdown,
}

/// Model of a [`CoordinatorOutput`].
pub enum CoordinatorOutputView {
    ToTui(ClientMessageView),
    ToPlayback(ClientMessageView),
    ToRecord(ClientMessageView),
    ToNetOut(MessageView),
    Shutdown,
}

impl View for CoordinatorOutput {
    type V = CoordinatorOutputView;

    open spec fn view(&self) -> CoordinatorOutputView {
        match self {
            CoordinatorOutput::ToTui(m) => CoordinatorOutputView::ToTui(m@),
            CoordinatorOutput::ToPlayback(m) => CoordinatorOutputView::ToPlayback(m@),
            CoordinatorOutput::ToRecord(m) => CoordinatorOutputView::ToRecord(m@),
            CoordinatorOutput::ToNetOut(m) => CoordinatorOutputView::ToNetOut(m@),
            CoordinatorOutput::Shutdown => CoordinatorOutputView::Shutdown,
        }
    }
}

pub open spec fn coordinator_output_views(s: Seq<CoordinatorOutput>) -> Seq<CoordinatorOutputView>
    decreases s.len(),
{
    if s.len() == 0 {
        Seq::empty()
    } else {
        coordinator_output_views(s.drop_last()).push(s.last()@)
    }
}

proof fn lemma_coordinator_output_views_push(s: Seq<CoordinatorOutput>, o: CoordinatorOutput)
    ensures
        coordinator_output_views(s.push(o)) == coordinator_output_views(s).push(o@),
{
    assert(s.push(o).drop_last() =~= s);
    assert(s.push(o).last() == o);
}

/// The routing matrix: what the coordinator does with one incoming message.
/// Audio from capture goes to the network with a transmit note to the UI;
/// received audio goes to playback in full and to the UI stripped of its
/// bytes; mute and deafen toggles go to the task that owns the flag;
/// membership and activity events go to the UI; `Exit` begins shutdown.
pub open spec fn spec_route(m: ClientMessageView) -> Seq<CoordinatorOutputView> {
    match m {
        ClientMessageView::Connect => seq![
            CoordinatorOutputView::ToTui(ClientMessageView::Connect),
        ],
        ClientMessageView::Audio(data) => seq![
            CoordinatorOutputView::ToTui(ClientMessageView::TransmitAudio(true)),
            CoordinatorOutputView::ToNetOut(MessageView::Audio(data)),
        ],
        ClientMessageView::RecvAudio(data, addr) => seq![
            CoordinatorOutputView::ToPlayback(ClientMessageView::RecvAudio(data, addr)),
            CoordinatorOutputView::ToTui(ClientMessageView::RecvAudio(Seq::empty(), addr)),
        ],
        ClientMessageView::ToggleMute => seq![
            CoordinatorOutputView::ToRecord(ClientMessageView::ToggleMute),
        ],
        ClientMessageView::ToggleDeafen => seq![
            CoordinatorOutputView::ToPlayback(ClientMessageView::ToggleDeafen),
        ],
        ClientMessageView::TransmitAudio(on) => seq![
            CoordinatorOutputView::ToTui(ClientMessageView::TransmitAudio(on)),
        ],
        ClientMessageView::NewClient(addr) => seq![
            CoordinatorOutputView::ToTui(ClientMessageView::NewClient(addr)),
        ],
        ClientMessageView::DeleteClient(addr) => seq![
            CoordinatorOutputView::ToTui(ClientMessageView::DeleteClient(addr)),
        ],
        ClientMessageView::Exit => seq![CoordinatorOutputView::Shutdown],
        ClientMessageView::Disconnect => Seq::empty(),
    }
}

/// Routes one incoming message, yielding the deliveries in order.
pub fn route_message(msg: ClientMessage) -> (out: Vec<CoordinatorOutput>)
    ensures
        coordinator_output_views(out@) == spec_route(msg@),
{
    let mut out: Vec<CoordinatorOutput> = Vec::new();
    let ghost m = msg@;
    match msg {
        ClientMessage::Connect => {
            push_output(&mut out, CoordinatorOutput::ToTui(ClientMessage::Connect));
        }
        ClientMessage::Audio(data) => {
            push_output(&mut out, CoordinatorOutput::ToTui(ClientMessage::TransmitAudio(true)));
            push_output(&mut out, CoordinatorOutput::ToNetOut(Message::Audio(data)));
        }
        ClientMessage::RecvAudio(data, addr) => {
            push_output(
                &mut out,
                CoordinatorOutput::ToPlayback(ClientMessage::RecvAudio(data, addr)),
            );
            push_output(
                &mut out,
                CoordinatorOutput::ToTui(ClientMessage::RecvAudio(Vec::new(), addr)),
            );
        }
        ClientMessage::ToggleMute => {
            push_output(&mut out, CoordinatorOutput::ToRecord(ClientMessage::ToggleMute));
        }
        ClientMessage::ToggleDeafen => {
            push_output(&mut out, CoordinatorOutput::ToPlayback(ClientMessage::ToggleDeafen));
        }
        ClientMessage::TransmitAudio(on) => {
            push_output(&mut out, CoordinatorOutput::ToTui(ClientMessage::TransmitAudio(on)));
        }
        ClientMessage::NewClient(addr) => {
            push_output(&mut out, CoordinatorOutput::ToTui(ClientMessage::NewClient(addr)));
        }
        ClientMessage::DeleteClient(addr) => {
            push_output(&mut out, CoordinatorOutput::ToTui(ClientMessage::DeleteClient(addr)));
        }
        ClientMessage::Exit => {
            push_output(&mut out, CoordinatorOutput::Shutdown);
        }
        ClientMessage::Disconnect => {}
    }
    proof {
        assert(coordinator_output_views(out@) =~= spec_route(m));
    }
    out
}

/// Appends one delivery, keeping track of the modelled output list.
fn push_output(out: &mut Vec<CoordinatorOutput>, o: CoordinatorOutput)
    ensures
        coordinator_output_views(final(out)@) == coordinator_output_views(old(out)@).push(o@),
{
    let ghost snap = o;
    let ghost before = out@;
    out.push(o);
    proof {
        lemma_coordinator_output_views_push(before, snap);
    }
}

/// The redundant greeting the coordinator queues at startup: several
/// `Hello` messages, so that one lost datagram does not delay the
/// connection acknowledgement. The relay stamps the observed source
/// address, so the carried address is advisory only and left zero.
pub fn startup_hellos() -> (v: Vec<Message>)
    ensures
        v@.len() == 3,
        forall|i: int|
            0 <= i < v@.len() ==> (#[trigger] v@[i])@ == MessageView::Hello(
                PeerAddr { ip: 0, port: 0 },
            ),
{
    let mut v: Vec<Message> = Vec::new();
    v.push(Message::Hello(PeerAddr { ip: 0, port: 0 }));
    v.push(Message::Hello(PeerAddr { ip: 0, port: 0 }));
    v.push(Message::Hello(PeerAddr { ip: 0, port: 0 }));
    v
}

/// Non-blocking receive on a channel the task may not have been given.
pub fn receive_client_message(rx: &Option<Receiver<ClientMessage>>) -> (r: Option<ClientMessage>)
    ensures
        rx is None ==> r is None,
{
    match rx {
        Some(rx) => channel_try_recv(rx),
        None => None,
    }
}

/// Best-effort send on a channel the task may not have been given.
pub fn send_client_message(message: ClientMessage, tx: &Option<Sender<ClientMessage>>) {
    match tx {
        Some(tx) => {
            channel_send(tx, message);
        }
        None => {}
    }
}

} // verus!
