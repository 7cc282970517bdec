use std::sync::mpsc;

use wapplatalk::audio::{playback_step, PlaybackAction, PlaybackState};
use wapplatalk::client::ClientMessage;
use wapplatalk::tui::{set_speaking_flags, App, UserListEntry};
use wapplatalk::PeerAddr;

fn addr(ip: u32, port: u16) -> PeerAddr {
    PeerAddr { ip, port }
}

fn fresh_app() -> (App, mpsc::Sender<ClientMessage>, mpsc::Receiver<ClientMessage>) {
    let (tx_in, rx_in) = mpsc::channel();
    let (tx_out, rx_out) = mpsc::channel();
    (App::new(rx_in, tx_out), tx_in, rx_out)
}

#[test]
fn starts_disconnected_with_no_users() {
    let (app, _tx, _rx) = fresh_app();
    assert!(!app.client_state.connected);
    assert!(!app.client_state.sending_audio);
    assert!(!app.client_state.mute);
    assert!(!app.client_state.deafen);
    assert!(!app.client_state.exit);
    assert!(app.main_widget.users.is_empty());
}

#[test]
fn connect_and_transmit_update_status_band() {
    let (mut app, tx, _rx) = fresh_app();
    tx.send(ClientMessage::Connect).unwrap();
    tx.send(ClientMessage::TransmitAudio(true)).unwrap();
    assert!(app.handle_tui_messages(0));
    assert!(app.client_state.connected);
    assert!(app.client_state.sending_audio);

    tx.send(ClientMessage::Disconnect).unwrap();
    assert!(app.handle_tui_messages(1));
    assert!(!app.client_state.connected);
    assert!(!app.client_state.sending_audio);
}

#[test]
fn membership_edits_user_list() {
    let (mut app, tx, _rx) = fresh_app();
    let a = addr(1, 1);
    let b = addr(2, 2);
    tx.send(ClientMessage::NewClient(a)).unwrap();
    tx.send(ClientMessage::NewClient(b)).unwrap();
    assert!(app.handle_tui_messages(0));
    assert_eq!(app.main_widget.users.len(), 2);
    assert_eq!(app.main_widget.users[0].addr, a);
    assert!(!app.main_widget.users[0].is_speaking);

    tx.send(ClientMessage::DeleteClient(a)).unwrap();
    assert!(app.handle_tui_messages(1));
    assert_eq!(app.main_widget.users.len(), 1);
    assert_eq!(app.main_widget.users[0].addr, b);
}

#[test]
fn received_audio_marks_its_source_speaking() {
    let (mut app, tx, _rx) = fresh_app();
    let a = addr(1, 1);
    let b = addr(2, 2);
    tx.send(ClientMessage::NewClient(a)).unwrap();
    tx.send(ClientMessage::NewClient(b)).unwrap();
    tx.send(ClientMessage::RecvAudio(Vec::new(), b)).unwrap();
    assert!(app.handle_tui_messages(77));
    assert!(!app.main_widget.users[0].is_speaking);
    assert!(app.main_widget.users[1].is_speaking);
    assert_eq!(app.main_widget.users[1].last_spoke, Some(77));
}

#[test]
fn audio_from_unknown_peer_changes_no_row() {
    let (mut app, tx, _rx) = fresh_app();
    let a = addr(1, 1);
    tx.send(ClientMessage::NewClient(a)).unwrap();
    tx.send(ClientMessage::RecvAudio(Vec::new(), addr(9, 9))).unwrap();
    assert!(app.handle_tui_messages(5));
    assert_eq!(app.main_widget.users.len(), 1);
    assert!(!app.main_widget.users[0].is_speaking);
}

#[test]
fn no_messages_means_no_redraw() {
    let (mut app, _tx, _rx) = fresh_app();
    assert!(!app.handle_tui_messages(0));
}

#[test]
fn speaking_flags_age_out_after_half_a_second() {
    let mut users = vec![
        UserListEntry { addr: addr(1, 1), is_speaking: true, last_spoke: Some(1000) },
        UserListEntry { addr: addr(2, 2), is_speaking: true, last_spoke: Some(1400) },
        UserListEntry { addr: addr(3, 3), is_speaking: false, last_spoke: None },
    ];
    // At 1501 the first flag is 501 ms old and clears; the second is exactly
    // 101 ms old and stays.
    assert!(set_speaking_flags(&mut users, 1501));
    assert!(!users[0].is_speaking);
    assert!(users[1].is_speaking);
    assert!(!users[2].is_speaking);
    // Nothing left to age: no redraw asked for.
    assert!(!set_speaking_flags(&mut users, 1501));
}

#[test]
fn keys_toggle_flags_and_report_to_coordinator() {
    let (mut app, _tx, rx) = fresh_app();
    app.handle_event('m');
    assert!(app.client_state.mute);
    assert_eq!(rx.try_recv(), Ok(ClientMessage::ToggleMute));
    app.handle_event('M');
    assert!(!app.client_state.mute);

    app.handle_event('d');
    assert!(app.client_state.deafen);
    assert_eq!(rx.try_recv(), Ok(ClientMessage::ToggleMute));
    assert_eq!(rx.try_recv(), Ok(ClientMessage::ToggleDeafen));

    app.handle_event('q');
    assert!(app.client_state.exit);

    app.handle_event('x');
    assert!(app.client_state.exit);
    assert!(app.client_state.deafen);
}

#[test]
fn playback_honours_deafen() {
    let mut state = PlaybackState::new();
    let a = addr(1, 1);
    assert_eq!(
        playback_step(&mut state, ClientMessage::RecvAudio(vec![1, 2], a)),
        PlaybackAction::Play(vec![1, 2])
    );
    assert_eq!(playback_step(&mut state, ClientMessage::ToggleDeafen), PlaybackAction::Ignore);
    assert!(state.deafened);
    assert_eq!(
        playback_step(&mut state, ClientMessage::RecvAudio(vec![1, 2], a)),
        PlaybackAction::Pace
    );
    assert_eq!(playback_step(&mut state, ClientMessage::ToggleDeafen), PlaybackAction::Ignore);
    assert!(!state.deafened);
    assert_eq!(playback_step(&mut state, ClientMessage::Connect), PlaybackAction::Ignore);
}
