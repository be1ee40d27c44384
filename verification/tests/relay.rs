use oec_server::dispatch::{dispatch_binary, dispatch_text, step, Flow, InboundEvent};
use oec_server::messages::{Frame, Message};
use oec_server::registry::{Registry, RegistryError};

fn registry_with(ids: &[u64]) -> Registry {
    let mut reg = Registry::new();
    for id in ids {
        assert!(matches!(reg.register(*id), Ok(())));
    }
    reg
}

fn pop_chat(reg: &mut Registry, id: u64) -> String {
    match reg.pop_outbound(id) {
        Some(Frame::Msg(Message::Chat(text))) => text,
        _ => panic!("expected a queued chat frame"),
    }
}

#[test]
fn register_duplicate_is_refused() {
    let mut reg = Registry::new();
    assert_eq!(reg.len(), 0);
    assert!(matches!(reg.register(7), Ok(())));
    assert!(matches!(reg.register(7), Err(RegistryError::DuplicateIdentity)));
    assert_eq!(reg.len(), 1);
    assert!(reg.contains(7));
}

#[test]
fn remove_absent_identity_is_noop() {
    let mut reg = registry_with(&[1]);
    reg.remove(2);
    assert_eq!(reg.len(), 1);
    assert!(reg.contains(1));
}

#[test]
fn chat_reaches_all_other_connections() {
    let mut reg = registry_with(&[1, 2, 3]);
    dispatch_text(&mut reg, 1, Some(Message::Chat(String::from("hi"))));
    assert_eq!(pop_chat(&mut reg, 2), "hi");
    assert_eq!(pop_chat(&mut reg, 3), "hi");
    assert!(reg.pop_outbound(1).is_none());
    assert!(reg.pop_outbound(2).is_none());
    assert!(reg.pop_outbound(3).is_none());
}

#[test]
fn binary_frame_is_forwarded_verbatim() {
    let payload: Vec<u8> = vec![0, 255, 13, 10, 42];
    let mut reg = registry_with(&[1, 2]);
    dispatch_binary(&mut reg, 1, payload.clone());
    match reg.pop_outbound(2) {
        Some(Frame::Binary(bytes)) => assert_eq!(bytes, payload),
        _ => panic!("expected the binary frame"),
    }
    assert!(reg.pop_outbound(1).is_none());
}

#[test]
fn stream_request_is_answered_to_requester_only() {
    let mut reg = registry_with(&[1, 2]);
    dispatch_text(&mut reg, 1, Some(Message::GenerateStream));
    match reg.pop_outbound(1) {
        Some(Frame::Msg(Message::StreamLink { url, session_id })) => {
            assert_eq!(session_id.len(), 36);
            assert_eq!(url, format!("/sender?session={}", session_id));
        },
        _ => panic!("expected the stream-link reply"),
    }
    assert!(reg.pop_outbound(1).is_none());
    assert!(reg.pop_outbound(2).is_none());
}

#[test]
fn stream_request_tokens_differ() {
    let mut reg = registry_with(&[1]);
    dispatch_text(&mut reg, 1, Some(Message::GenerateStream));
    dispatch_text(&mut reg, 1, Some(Message::GenerateStream));
    let first = match reg.pop_outbound(1) {
        Some(Frame::Msg(Message::StreamLink { session_id, .. })) => session_id,
        _ => panic!("expected the first reply"),
    };
    let second = match reg.pop_outbound(1) {
        Some(Frame::Msg(Message::StreamLink { session_id, .. })) => session_id,
        _ => panic!("expected the second reply"),
    };
    assert_ne!(first, second);
}

#[test]
fn client_sent_stream_link_is_ignored() {
    let mut reg = registry_with(&[1, 2]);
    dispatch_text(
        &mut reg,
        1,
        Some(Message::StreamLink {
            url: String::from("/sender?session=abc"),
            session_id: String::from("abc"),
        }),
    );
    assert!(reg.pop_outbound(1).is_none());
    assert!(reg.pop_outbound(2).is_none());
}

#[test]
fn undecodable_text_is_dropped_and_connection_stays() {
    let mut reg = registry_with(&[1, 2]);
    let flow = step(&mut reg, 1, InboundEvent::Text(None));
    assert!(matches!(flow, Flow::Continue));
    assert!(reg.contains(1));
    assert!(reg.pop_outbound(1).is_none());
    assert!(reg.pop_outbound(2).is_none());
}

#[test]
fn per_sender_order_is_kept() {
    let mut reg = registry_with(&[1, 2]);
    dispatch_text(&mut reg, 1, Some(Message::Chat(String::from("first"))));
    dispatch_text(&mut reg, 1, Some(Message::Chat(String::from("second"))));
    dispatch_binary(&mut reg, 1, vec![9]);
    assert_eq!(pop_chat(&mut reg, 2), "first");
    assert_eq!(pop_chat(&mut reg, 2), "second");
    match reg.pop_outbound(2) {
        Some(Frame::Binary(bytes)) => assert_eq!(bytes, vec![9]),
        _ => panic!("expected the binary frame last"),
    }
    assert!(reg.pop_outbound(2).is_none());
}

#[test]
fn teardown_excludes_from_later_fan_outs() {
    let mut reg = registry_with(&[1, 2, 3]);
    let flow = step(&mut reg, 2, InboundEvent::Shutdown);
    assert!(matches!(flow, Flow::Stop));
    assert!(!reg.contains(2));
    assert_eq!(reg.len(), 2);
    dispatch_text(&mut reg, 1, Some(Message::Chat(String::from("late"))));
    assert!(reg.pop_outbound(2).is_none());
    assert_eq!(pop_chat(&mut reg, 3), "late");
}

#[test]
fn frames_queued_before_teardown_die_with_it() {
    let mut reg = registry_with(&[1, 2]);
    dispatch_text(&mut reg, 1, Some(Message::Chat(String::from("pending"))));
    reg.remove(2);
    assert!(reg.pop_outbound(2).is_none());
    assert!(matches!(reg.register(2), Ok(())));
    assert!(reg.pop_outbound(2).is_none());
}

#[test]
fn video_message_fans_out_unchanged() {
    let chunk: Vec<u8> = vec![1, 2, 3, 4];
    let mut reg = registry_with(&[1, 2]);
    dispatch_text(&mut reg, 1, Some(Message::Video(chunk.clone())));
    match reg.pop_outbound(2) {
        Some(Frame::Msg(Message::Video(bytes))) => assert_eq!(bytes, chunk),
        _ => panic!("expected the video message"),
    }
}

#[test]
fn location_bits_pass_through_exactly() {
    let lat: f64 = 48.8584;
    let lon: f64 = 2.2945;
    let mut reg = registry_with(&[1, 2]);
    dispatch_text(
        &mut reg,
        1,
        Some(Message::Location { latitude_bits: lat.to_bits(), longitude_bits: lon.to_bits() }),
    );
    match reg.pop_outbound(2) {
        Some(Frame::Msg(Message::Location { latitude_bits, longitude_bits })) => {
            assert_eq!(f64::from_bits(latitude_bits), lat);
            assert_eq!(f64::from_bits(longitude_bits), lon);
        },
        _ => panic!("expected the location message"),
    }
}

#[test]
fn sender_outside_registry_still_fans_out() {
    let mut reg = registry_with(&[2, 3]);
    dispatch_text(&mut reg, 1, Some(Message::Chat(String::from("ghostless"))));
    assert_eq!(pop_chat(&mut reg, 2), "ghostless");
    assert_eq!(pop_chat(&mut reg, 3), "ghostless");
}

#[test]
fn stream_request_from_unregistered_sender_drops_reply() {
    let mut reg = registry_with(&[2]);
    dispatch_text(&mut reg, 1, Some(Message::GenerateStream));
    assert!(reg.pop_outbound(1).is_none());
    assert!(reg.pop_outbound(2).is_none());
}

#[test]
fn empty_registry_accepts_traffic() {
    let mut reg = Registry::new();
    dispatch_binary(&mut reg, 1, vec![5]);
    dispatch_text(&mut reg, 1, Some(Message::Chat(String::from("void"))));
    assert_eq!(reg.len(), 0);
}
