use vnc_server::handshake::{greeting, negotiate_minor, server_init};
use vnc_server::{vnc_password_response, Handshake, Stage, VncAuth, VncError};

fn open() -> Handshake {
    Handshake::new(VncAuth::Open, 800, 480, "desk".to_string())
}

fn locked() -> Handshake {
    Handshake::new(VncAuth::Password("secret".to_string()), 800, 480, "desk".to_string())
}

const SERVER_INIT: [u8; 28] = [
    0x03, 0x20, 0x01, 0xe0, 32, 24, 0, 1, 0, 255, 0, 255, 0, 255, 16, 8, 0, 0, 0, 0, 0, 0, 0, 4,
    b'd', b'e', b's', b'k',
];

#[test]
fn greeting_offers_3_8() {
    assert_eq!(greeting(), b"RFB 003.008\n");
}

#[test]
fn versions_settle_on_a_known_one() {
    assert_eq!(negotiate_minor(b"RFB 003.008\n"), 8);
    assert_eq!(negotiate_minor(b"RFB 003.007\n"), 7);
    assert_eq!(negotiate_minor(b"RFB 003.003\n"), 3);
    assert_eq!(negotiate_minor(b"RFB 003.005\n"), 3);
    assert_eq!(negotiate_minor(b"RFB 003.889\n"), 3);
    assert_eq!(negotiate_minor(b"RFB 004.008\n"), 3);
    assert_eq!(negotiate_minor(b"GET / HTTP/8"), 3);
}

#[test]
fn server_init_announces_the_screen() {
    assert_eq!(server_init(800, 480, "desk"), SERVER_INIT);
}

#[test]
fn an_open_3_8_session() {
    let mut h = open();
    assert_eq!(h.needed(), 12);
    assert_eq!(h.advance(b"RFB 003.008\n"), [1, 1]);
    assert_eq!(h.needed(), 1);
    assert_eq!(h.advance(&[1]), [0, 0, 0, 0]);
    assert!(matches!(h.stage(), Stage::ClientInit { minor: 8 }));
    assert_eq!(h.needed(), 1);
    assert_eq!(h.advance(&[1]), SERVER_INIT);
    assert!(matches!(h.stage(), Stage::Ready { minor: 8 }));
    assert_eq!(h.needed(), 0);
}

#[test]
fn an_open_3_7_session_has_no_security_result() {
    let mut h = open();
    assert_eq!(h.advance(b"RFB 003.007\n"), [1, 1]);
    assert!(h.advance(&[1]).is_empty());
    assert_eq!(h.advance(&[0]), SERVER_INIT);
    assert!(matches!(h.stage(), Stage::Ready { minor: 7 }));
}

#[test]
fn an_open_3_3_session_is_told_the_security_type() {
    let mut h = open();
    assert_eq!(h.advance(b"RFB 003.003\n"), [0, 0, 0, 1]);
    assert_eq!(h.advance(&[0]), SERVER_INIT);
    assert!(matches!(h.stage(), Stage::Ready { minor: 3 }));
}

#[test]
fn an_unsupported_security_type_is_refused() {
    let mut h = open();
    h.advance(b"RFB 003.008\n");
    assert!(h.advance(&[2]).is_empty());
    assert!(matches!(
        h.stage(),
        Stage::Failed { error: VncError::UnsupportedSecurityType }
    ));
    assert_eq!(h.needed(), 0);
    assert!(h.advance(&[]).is_empty());
    assert!(matches!(h.stage(), Stage::Failed { .. }));
}

#[test]
fn a_password_session_with_the_right_answer() {
    let mut h = locked();
    assert_eq!(h.receive(b"RFB 003.008\n"), [1, 2]);
    assert!(h.receive(&[2]).is_empty());
    assert!(matches!(h.stage(), Stage::ChallengeDue { minor: 8 }));
    let challenge = [9u8; 16];
    assert_eq!(h.challenge(challenge), challenge);
    assert_eq!(h.needed(), 16);
    assert_eq!(h.receive(&vnc_password_response("secret", challenge)), [0, 0, 0, 0]);
    assert!(matches!(h.stage(), Stage::ClientInit { minor: 8 }));
    assert_eq!(h.receive(&[1]), SERVER_INIT);
}

#[test]
fn a_password_session_with_a_wrong_answer() {
    let mut h = locked();
    h.receive(b"RFB 003.007\n");
    h.receive(&[2]);
    let challenge = [9u8; 16];
    h.challenge(challenge);
    assert_eq!(h.receive(&vnc_password_response("Secret", challenge)), [0, 0, 0, 1]);
    assert!(matches!(
        h.stage(),
        Stage::Failed { error: VncError::AuthenticationFailed }
    ));
}

#[test]
fn a_3_3_client_gets_the_challenge_at_once() {
    let mut h = locked();
    let reply = h.advance(b"RFB 003.003\n");
    assert_eq!(reply.len(), 20);
    assert_eq!(reply[..4], [0, 0, 0, 2]);
    let mut challenge = [0u8; 16];
    challenge.copy_from_slice(&reply[4..]);
    assert_eq!(h.advance(&vnc_password_response("secret", challenge)), [0, 0, 0, 0]);
    assert!(matches!(h.stage(), Stage::ClientInit { minor: 3 }));
}

#[test]
fn a_challenge_is_posed_only_where_it_is_due() {
    let mut h = locked();
    assert!(h.challenge([1; 16]).is_empty());
    assert!(matches!(h.stage(), Stage::Version));
}

#[test]
fn challenges_differ_between_sessions() {
    let mut seen: Vec<Vec<u8>> = Vec::new();
    for _ in 0..4 {
        let mut h = locked();
        h.advance(b"RFB 003.008\n");
        let challenge = h.advance(&[2]);
        assert_eq!(challenge.len(), 16);
        assert!(!seen.contains(&challenge));
        seen.push(challenge);
    }
}
