use redis_cli::escape::{format_vec_with_unicode, unescape_bytes, unescape_unicode};

#[test]
fn test_unescape_unicode() {
    assert_eq!(
        "\\\\xe4\\\\xb8\\\\xad",
        unescape_unicode(&String::from("\\\\xe4\\\\xb8\\\\xad")).unwrap()
    );
    assert_eq!(
        "中文S",
        unescape_unicode(&String::from("\\xe4\\xb8\\xad\\xe6\\x96\\x87\\x53")).unwrap()
    );
    assert_eq!(
        "中文",
        unescape_unicode(&String::from("\\xe4\\xb8\\xad\\xe6\\x96\\x87")).unwrap()
    );
    assert_eq!(
        "x中文",
        unescape_unicode(&String::from("x\\xe4\\xb8\\xad\\xe6\\x96\\x87")).unwrap()
    );
    assert_eq!(
        "中文key",
        unescape_unicode(&String::from("\\xe4\\xb8\\xad\\xe6\\x96\\x87key")).unwrap()
    );
    assert_eq!(
        "中x文key",
        unescape_unicode(&String::from("\\xe4\\xb8\\xadx\\xe6\\x96\\x87key")).unwrap()
    );
    assert_eq!(
        "y中x文key",
        unescape_unicode(&String::from("y\\xe4\\xb8\\xadx\\xe6\\x96\\x87key")).unwrap()
    );
}

#[test]
fn utf8_of_escaped_key() {
    assert_eq!(
        "中文key",
        String::from_utf8(b"\xe4\xb8\xad\xe6\x96\x87key".to_vec()).unwrap()
    );
}

#[test]
fn unescape_invalid_utf8_is_none() {
    assert_eq!(None, unescape_unicode("\\xff"));
    assert_eq!(None, unescape_unicode("a\\xe4b"));
}

#[test]
fn unescape_bytes_edges() {
    assert_eq!(unescape_bytes(b"\\x41"), b"A".to_vec());
    assert_eq!(unescape_bytes(b"a\\x00"), vec![b'a', 0]);
    assert_eq!(unescape_bytes(b"\\xff\\x7f"), vec![0xff, 0x7f]);
    // uppercase digits, a short escape and a space are not escapes
    assert_eq!(unescape_bytes(b"\\xFF"), b"\\xFF".to_vec());
    assert_eq!(unescape_bytes(b"\\x4"), b"\\x4".to_vec());
    assert_eq!(unescape_bytes(b"\\x 1"), b"\\x 1".to_vec());
    // an escape after a backslash stays as text, the next one is decoded
    assert_eq!(unescape_bytes(b"\\\\x41\\x42"), b"\\\\x41B".to_vec());
    // the look-back reads the input, not what an earlier escape became
    assert_eq!(unescape_bytes(b"\\x5c\\x41"), b"\\A".to_vec());
    assert_eq!(unescape_bytes(b""), Vec::<u8>::new());
}

#[test]
fn fallback_shows_bytes() {
    assert_eq!(format_vec_with_unicode(vec![0xe4, b'a', 0x00]), "\\xe4a\\x00");
    assert_eq!(format_vec_with_unicode(vec![0x7f, b' ', b'~', 0x1f]), "\\x7f ~\\x1f");
    assert_eq!(format_vec_with_unicode(vec![0x0a, 0xff]), "\\x0a\\xff");
    assert_eq!(format_vec_with_unicode(vec![]), "");
}

#[test]
fn fallback_round_trip() {
    let samples: Vec<Vec<u8>> = vec![
        vec![0xe4, 0xb8, 0xad, b'k', b'e', b'y'],
        vec![0x00, 0x01, 0x7f, 0x80, 0xff],
        vec![b'x', b'4', b'1', 0x00, b'a', b'b'],
        (0u8..=255).filter(|b| *b != b'\\').collect(),
    ];
    for b in samples {
        let shown = format_vec_with_unicode(b.clone());
        assert_eq!(unescape_bytes(shown.as_bytes()), b);
    }
}

#[test]
fn fallback_round_trip_fails_with_backslash() {
    let b = vec![b'\\', 0x00];
    let shown = format_vec_with_unicode(b.clone());
    assert_eq!(shown, "\\\\x00");
    assert_ne!(unescape_bytes(shown.as_bytes()), b);
}
