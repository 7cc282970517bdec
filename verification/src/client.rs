//! Client-side message space and the translation of wire messages into it.
use vstd::prelude::*;

use crate::PeerAddr;
use crate::server::{Message, MessageView};

verus! {

/// The messages the client tasks pass among themselves: capture, playback,
/// network, coordinator and UI all speak this type.
#[derive(Debug, PartialEq)]
pub enum ClientMessage {
    Connect,
    Disconnect,
    ToggleMute,
    ToggleDeafen,
    Audio(Vec<u8>),
    RecvAudio(Vec<u8>, PeerAddr),
    TransmitAudio(bool),
    NewClient(PeerAddr),
    DeleteClient(PeerAddr),
    Exit,
}

/// The mathematical model of a [`ClientMessage`].
pub enum ClientMessageView {
    Connect,
    Disconnect,
    ToggleMute,
    ToggleDeafen,
    Audio(Seq<u8>),
    RecvAudio(Seq<u8>, PeerAddr),
    TransmitAudio(bool),
    NewClient(PeerAddr),
    DeleteClient(PeerAddr),
    Exit,
}

impl View for ClientMessage {
    type V = ClientMessageView;

    open spec fn view(&self) -> ClientMessageView {
        match self {
            ClientMessage::Connect => ClientMessageView::Connect,
            ClientMessage::Disconnect => ClientMessageView::Disconnect,
            ClientMessage::ToggleMute => ClientMessageView::ToggleMute,
            ClientMessage::ToggleDeafen => ClientMessageView::ToggleDeafen,
            ClientMessage::Audio(data) => ClientMessageView::Audio(data@),
            ClientMessage::RecvAudio(data, addr) => ClientMessageView::RecvAudio(data@, *addr),
            ClientMessage::TransmitAudio(on) => ClientMessageView::TransmitAudio(*on),
            ClientMessage::NewClient(addr) => ClientMessageView::NewClient(*addr),
            ClientMessage::DeleteClient(addr) => ClientMessageView::DeleteClient(*addr),
            ClientMessage::Exit => ClientMessageView::Exit,
        }
    }
}

/// How one wire message received from the relay reads in the client's
/// message space. Audio is attributed to its source, membership events pass
/// through, a `Hello` echo means the relay acknowledged us, and everything
/// else is dropped.
pub open spec fn spec_translate_inbound(m: MessageView) -> Option<ClientMessageView> {
    match m {
        MessageView::AudioFrom(addr, data) => Some(ClientMessageView::RecvAudio(data, addr)),
        MessageView::NewClient(addr) => Some(ClientMessageView::NewClient(addr)),
        MessageView::DeleteClient(addr) => Some(ClientMessageView::DeleteClient(addr)),
        MessageView::Hello(_) => Some(ClientMessageView::Connect),
        _ => None,
    }
}

/// Translates one decoded datagram into the client's message space.
pub fn translate_inbound(msg: Message) -> (r: Option<ClientMessage>)
    ensures
        match r {
            Some(c) => spec_translate_inbound(msg@) == Some(c@),
            None => spec_translate_inbound(msg@) is None,
        },
{
    match msg {
        Message::AudioFrom(addr, data) => Some(ClientMessage::RecvAudio(data, addr)),
        Message::NewClient(addr) => Some(ClientMessage::NewClient(addr)),
        Message::DeleteClient(addr) => Some(ClientMessage::DeleteClient(addr)),
        Message::Hello(_) => Some(ClientMessage::Connect),
        _ => None,
    }
}

} // verus!
