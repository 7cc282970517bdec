use wapplatalk::PeerAddr;
use wapplatalk::server::{decode_message, encode_message, Message};

fn addr(ip: u32, port: u16) -> PeerAddr {
    PeerAddr { ip, port }
}

fn round_trip(msg: Message) {
    let bytes = encode_message(&msg);
    assert!(bytes.len() <= 3840 + 32);
    assert_eq!(decode_message(&bytes), msg);
}

#[test]
fn round_trip_audio() {
    round_trip(Message::Audio(vec![1, 2, 3, 250]));
    round_trip(Message::Audio(Vec::new()));
}

#[test]
fn round_trip_audio_largest_frame() {
    round_trip(Message::Audio(vec![0xab; 3840]));
}

#[test]
fn round_trip_audio_from() {
    round_trip(Message::AudioFrom(addr(0xc0a80001, 50000), vec![9, 8, 7]));
    round_trip(Message::AudioFrom(addr(0, 0), Vec::new()));
}

#[test]
fn round_trip_control_messages() {
    round_trip(Message::Ping);
    round_trip(Message::Bye);
    round_trip(Message::Hello(addr(0x7f000001, 1234)));
    round_trip(Message::NewClient(addr(u32::MAX, u16::MAX)));
    round_trip(Message::DeleteClient(addr(1, 2)));
    round_trip(Message::Unknown(vec![42, 0, 42]));
}

#[test]
fn decode_empty_is_unknown_empty() {
    assert_eq!(decode_message(&[]), Message::Unknown(Vec::new()));
}

#[test]
fn decode_garbage_is_unknown_copy() {
    assert_eq!(decode_message(&[200, 13]), Message::Unknown(vec![200, 13]));
}

#[test]
fn decode_truncated_audio_from_is_unknown_copy() {
    // Tag 1 wants at least six address bytes after it.
    assert_eq!(decode_message(&[1, 2, 3]), Message::Unknown(vec![1, 2, 3]));
}

#[test]
fn decode_overlong_ping_is_unknown_copy() {
    assert_eq!(decode_message(&[2, 0]), Message::Unknown(vec![2, 0]));
}

#[test]
fn decode_overlong_hello_is_unknown_copy() {
    let buf = [3, 1, 2, 3, 4, 5, 6, 7];
    assert_eq!(decode_message(&buf), Message::Unknown(buf.to_vec()));
}

#[test]
fn encoding_is_tag_then_payload() {
    assert_eq!(encode_message(&Message::Ping), vec![2]);
    assert_eq!(encode_message(&Message::Bye), vec![6]);
    assert_eq!(encode_message(&Message::Audio(vec![7, 7])), vec![0, 7, 7]);
    // Address bytes: little-endian IP, then little-endian port.
    assert_eq!(
        encode_message(&Message::Hello(addr(0x01020304, 0x1234))),
        vec![3, 0x04, 0x03, 0x02, 0x01, 0x34, 0x12]
    );
}
