use streamx::error::StreamError;
use streamx::handshake::{check_client_version, server_handshake};

#[test]
fn version_three_is_accepted() {
    assert!(check_client_version(3).is_ok());
}

#[test]
fn version_two_is_rejected_before_any_reply() {
    // the server reads one byte, sees 02, and closes: no S0 is built
    assert_eq!(check_client_version(2), Err(StreamError::HandshakeVersionMismatch));
    let c1 = [0u8; 1536];
    assert!(matches!(
        server_handshake(2, &c1),
        Err(StreamError::HandshakeVersionMismatch)
    ));
}

#[test]
fn s2_echoes_c1_verbatim() {
    let mut c1 = [0u8; 1536];
    for (i, b) in c1.iter_mut().enumerate() {
        *b = (i * 7 % 256) as u8;
    }
    let h = server_handshake(3, &c1).expect("handshake");
    assert_eq!(h.s0, 3);
    assert_eq!(h.s1.len(), 1536);
    assert_eq!(&h.s1[0..8], &[0, 0, 0, 0, 0, 0, 0, 0]);
    assert_eq!(h.s2.as_slice(), &c1[..]);
    // S2 copies C1 whatever C1's first 8 bytes held; S1's tail is free
    assert_ne!(&h.s1[8..], &c1[8..]);
}

#[test]
fn short_c1_is_truncated() {
    let c1 = [0u8; 100];
    assert!(matches!(
        server_handshake(3, &c1),
        Err(StreamError::HandshakeTruncated)
    ));
}
