use tempest::daemon::{chord_events, resolve_keys, KeyEvent};
use tempest::config::Action;
use tempest::protocol::{new_frame, new_secret, open_frame, seal_frame, trim, FrameError};

#[test]
fn sealed_frame_matches_known_vector() {
    let key = [0u8; 32];
    let nonce = [0u8; 12];
    let frame = seal_frame(&key, &nonce, b"").unwrap();
    let expected = format!("{}{}\n", "0".repeat(24), "530f8afbc74536b9a963b4f1c4cb738b");
    assert_eq!(String::from_utf8(frame).unwrap(), expected);
    let frame = seal_frame(&key, &nonce, &[0u8; 16]).unwrap();
    let expected = format!(
        "{}{}{}\n",
        "0".repeat(24),
        "cea7403d4d606b6e074ec5d3baf39d18",
        "d0d1c8a799996bf0265b98b5d48ab919"
    );
    assert_eq!(String::from_utf8(frame).unwrap(), expected);
}

#[test]
fn round_trip_recovers_identifier() {
    let key = new_secret();
    assert_eq!(key.len(), 32);
    let (nonce, frame) = new_frame(&key, b"lock screen").unwrap();
    assert_eq!(nonce.len(), 12);
    assert_eq!(frame.len(), 2 * (12 + 11 + 16) + 1);
    assert_eq!(frame[frame.len() - 1], b'\n');
    assert_eq!(open_frame(&key, &frame), Ok(b"lock screen".to_vec()));
}

#[test]
fn wrong_key_is_rejected_and_next_frame_still_opens() {
    let key = new_secret();
    let mut stale = key.clone();
    stale[0] ^= 1;
    let (_, bad) = new_frame(&stale, b"lock screen").unwrap();
    let (_, good) = new_frame(&key, b"lock screen").unwrap();
    assert_eq!(open_frame(&key, &bad), Err(FrameError::Rejected));
    assert_eq!(open_frame(&key, &good), Ok(b"lock screen".to_vec()));
}

#[test]
fn tampered_frame_is_rejected() {
    let key = new_secret();
    let (_, mut frame) = new_frame(&key, b"terminal").unwrap();
    frame[30] = if frame[30] == b'0' { b'1' } else { b'0' };
    assert_eq!(open_frame(&key, &frame), Err(FrameError::Rejected));
}

#[test]
fn malformed_frames_are_errors() {
    let key = [7u8; 32];
    assert_eq!(open_frame(&key, b"xyz\n"), Err(FrameError::BadHex));
    assert_eq!(open_frame(&key, b"abc\n"), Err(FrameError::BadHex));
    assert_eq!(open_frame(&key, b"00ff\n"), Err(FrameError::TooShort));
    assert_eq!(open_frame(&key[..16], b"00ff\n"), Err(FrameError::BadKey));
    assert_eq!(seal_frame(&key[..16], &[0u8; 12], b"x"), Err(FrameError::BadKey));
    assert_eq!(seal_frame(&key, &[0u8; 8], b"x"), Err(FrameError::BadKey));
    let upper = format!("{}{}\r\n", "0".repeat(24), "530F8AFBC74536B9A963B4F1C4CB738B");
    assert_eq!(open_frame(&[0u8; 32], upper.as_bytes()), Ok(vec![]));
}

#[test]
fn trim_strips_ascii_whitespace() {
    assert_eq!(trim(b"  ab12 \r\n"), b"ab12");
    assert_eq!(trim(b"\n\t "), b"");
    assert_eq!(trim(b"a b"), b"a b");
}

#[test]
fn chord_presses_in_order_and_releases_in_reverse() {
    let events = chord_events(&[125, 52]);
    assert_eq!(
        events,
        vec![
            KeyEvent::Press(125),
            KeyEvent::Press(52),
            KeyEvent::Release(52),
            KeyEvent::Release(125),
        ]
    );
    assert!(chord_events(&[]).is_empty());
}

#[test]
fn identifiers_resolve_to_chords_only() {
    let actions = vec![
        (
            "lock screen".to_string(),
            Action::Keys(vec!["LEFTMETA".to_string(), "L".to_string()]),
        ),
        ("terminal".to_string(), Action::Command(vec!["xterm".to_string()])),
    ];
    assert_eq!(resolve_keys(&actions, b"lock screen"), Some(0));
    assert_eq!(resolve_keys(&actions, b"terminal"), None);
    assert_eq!(resolve_keys(&actions, b"unknown"), None);
    assert_eq!(resolve_keys(&actions, &[0xff, 0xfe]), None);
}
