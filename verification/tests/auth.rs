use vnc_server::auth::{judge_response, run_vnc_password_auth, vnc_password_key};
use vnc_server::{vnc_password_response, VncAuth, VncError, VncServerConfig};

#[test]
fn vnc_password_uses_only_first_8_bytes() {
    let challenge = [0x5au8; 16];
    assert_eq!(
        vnc_password_response("password-extra", challenge),
        vnc_password_response("password", challenge)
    );
}

#[test]
fn vnc_password_changes_response() {
    let challenge = [0x33u8; 16];
    assert_ne!(
        vnc_password_response("password", challenge),
        vnc_password_response("passwore", challenge)
    );
}

#[test]
fn key_holds_reversed_bytes_and_zeros() {
    assert_eq!(vnc_password_key("a\u{1}"), [0x86, 0x80, 0, 0, 0, 0, 0, 0]);
    assert_eq!(vnc_password_key(""), [0; 8]);
}

#[test]
fn response_is_the_des_encryption_of_both_halves() {
    // The reversed bytes are the key 12 34 56 78 9a bc de f0.
    let password = "H,j\u{1e}Y={\u{f}";
    let half = [0x01, 0x23, 0x45, 0x67, 0x89, 0xab, 0xcd, 0xef];
    let encrypted = [0x85, 0xe8, 0x13, 0x54, 0x0f, 0x0a, 0xb4, 0x05];
    let mut challenge = [0u8; 16];
    challenge[..8].copy_from_slice(&half);
    let first = vnc_password_response(password, challenge);
    assert_eq!(first[..8], encrypted);
    assert_ne!(first[8..], encrypted);
    challenge[8..].copy_from_slice(&half);
    assert_eq!(vnc_password_response(password, challenge)[8..], encrypted);
}

#[test]
fn right_answer_is_accepted() {
    let challenge = [7u8; 16];
    let response = vnc_password_response("secret", challenge);
    let (reply, verdict) = run_vnc_password_auth("secret", challenge, response, true);
    assert_eq!((reply, verdict), (vec![0, 0, 0, 0], Ok(())));
    let (reply, verdict) = run_vnc_password_auth("secret", challenge, response, false);
    assert_eq!((reply, verdict), (vec![], Ok(())));
}

#[test]
fn wrong_answer_is_refused() {
    let challenge = [7u8; 16];
    let response = vnc_password_response("Secret", challenge);
    let (reply, verdict) = run_vnc_password_auth("secret", challenge, response, true);
    assert_eq!(reply, [0, 0, 0, 1]);
    assert_eq!(verdict, Err(VncError::AuthenticationFailed));
    let (reply, verdict) = run_vnc_password_auth("secret", challenge, response, false);
    assert!(reply.is_empty());
    assert_eq!(verdict, Err(VncError::AuthenticationFailed));
}

#[test]
fn one_wrong_byte_is_enough_to_refuse() {
    for i in 0..16 {
        let mut response = [3u8; 16];
        response[i] = 4;
        let (reply, verdict) = judge_response(&[3u8; 16], &response, true);
        assert_eq!(reply, [0, 0, 0, 1]);
        assert!(verdict.is_err());
    }
    assert!(judge_response(&[3u8; 16], &[3u8; 16], true).1.is_ok());
}

#[test]
fn errors_say_what_happened() {
    assert_eq!(
        VncError::UnsupportedSecurityType.message(),
        "VNC client selected an unsupported security type"
    );
    assert_eq!(
        VncError::AuthenticationFailed.message(),
        "VNC password authentication failed"
    );
}

#[test]
fn a_config_is_open_and_output_only_at_first() {
    let config: VncServerConfig<u8> = VncServerConfig::new();
    assert!(config.input_callback.is_none());
    assert!(matches!(config.auth, VncAuth::Open));
    assert_eq!(config.auth.security_type(), 1);
    let config: VncServerConfig<u8> = VncServerConfig::default();
    assert!(config.input_callback.is_none());
    assert!(matches!(config.auth, VncAuth::Open));
    assert!(matches!(VncAuth::default(), VncAuth::Open));
}

#[test]
fn a_config_keeps_what_it_is_given() {
    let config = VncServerConfig::new()
        .with_input_callback(5u8)
        .with_password("secret".to_string());
    assert_eq!(config.input_callback, Some(5));
    assert!(matches!(&config.auth, VncAuth::Password(p) if p == "secret"));
    assert_eq!(config.auth.security_type(), 2);
    let config = config.clone().with_input_callback(6);
    assert_eq!(config.input_callback, Some(6));
    assert!(matches!(&config.auth, VncAuth::Password(p) if p == "secret"));
}

#[test]
fn long_passwords_are_reported_as_truncated() {
    assert!(!VncAuth::Open.password_is_truncated());
    assert!(!VncAuth::Password("12345678".to_string()).password_is_truncated());
    assert!(VncAuth::Password("123456789".to_string()).password_is_truncated());
    assert!(VncAuth::Password("\u{e4}\u{e4}\u{e4}\u{e4}a".to_string()).password_is_truncated());
}
