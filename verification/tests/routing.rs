use wapplatalk::client::{translate_inbound, ClientMessage};
use wapplatalk::coordinator::{route_message, startup_hellos, CoordinatorOutput};
use wapplatalk::server::Message;
use wapplatalk::PeerAddr;

fn addr(ip: u32, port: u16) -> PeerAddr {
    PeerAddr { ip, port }
}

#[test]
fn route_audio_goes_to_net_with_ui_note() {
    let out = route_message(ClientMessage::Audio(vec![1, 2]));
    assert_eq!(
        out,
        vec![
            CoordinatorOutput::ToTui(ClientMessage::TransmitAudio(true)),
            CoordinatorOutput::ToNetOut(Message::Audio(vec![1, 2])),
        ]
    );
}

#[test]
fn route_recv_audio_strips_bytes_for_ui() {
    let a = addr(1, 1);
    let out = route_message(ClientMessage::RecvAudio(vec![9, 9], a));
    assert_eq!(
        out,
        vec![
            CoordinatorOutput::ToPlayback(ClientMessage::RecvAudio(vec![9, 9], a)),
            CoordinatorOutput::ToTui(ClientMessage::RecvAudio(Vec::new(), a)),
        ]
    );
}

#[test]
fn route_toggles_go_to_their_owners() {
    assert_eq!(
        route_message(ClientMessage::ToggleMute),
        vec![CoordinatorOutput::ToRecord(ClientMessage::ToggleMute)]
    );
    assert_eq!(
        route_message(ClientMessage::ToggleDeafen),
        vec![CoordinatorOutput::ToPlayback(ClientMessage::ToggleDeafen)]
    );
}

#[test]
fn route_status_and_membership_go_to_ui() {
    let a = addr(2, 2);
    assert_eq!(
        route_message(ClientMessage::Connect),
        vec![CoordinatorOutput::ToTui(ClientMessage::Connect)]
    );
    assert_eq!(
        route_message(ClientMessage::TransmitAudio(false)),
        vec![CoordinatorOutput::ToTui(ClientMessage::TransmitAudio(false))]
    );
    assert_eq!(
        route_message(ClientMessage::NewClient(a)),
        vec![CoordinatorOutput::ToTui(ClientMessage::NewClient(a))]
    );
    assert_eq!(
        route_message(ClientMessage::DeleteClient(a)),
        vec![CoordinatorOutput::ToTui(ClientMessage::DeleteClient(a))]
    );
}

#[test]
fn route_exit_begins_shutdown() {
    assert_eq!(route_message(ClientMessage::Exit), vec![CoordinatorOutput::Shutdown]);
    assert_eq!(route_message(ClientMessage::Disconnect), Vec::new());
}

#[test]
fn startup_pushes_three_hellos() {
    let hellos = startup_hellos();
    assert_eq!(hellos.len(), 3);
    for h in &hellos {
        assert_eq!(*h, Message::Hello(addr(0, 0)));
    }
}

#[test]
fn inbound_translation() {
    let a = addr(3, 3);
    assert_eq!(
        translate_inbound(Message::AudioFrom(a, vec![1])),
        Some(ClientMessage::RecvAudio(vec![1], a))
    );
    assert_eq!(translate_inbound(Message::NewClient(a)), Some(ClientMessage::NewClient(a)));
    assert_eq!(
        translate_inbound(Message::DeleteClient(a)),
        Some(ClientMessage::DeleteClient(a))
    );
    assert_eq!(translate_inbound(Message::Hello(a)), Some(ClientMessage::Connect));
    assert_eq!(translate_inbound(Message::Ping), None);
    assert_eq!(translate_inbound(Message::Bye), None);
    assert_eq!(translate_inbound(Message::Audio(vec![1])), None);
    assert_eq!(translate_inbound(Message::Unknown(vec![1])), None);
}
