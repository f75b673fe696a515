use logsplit_rs::decode_utf8_chunk;

fn decoded(bytes: &[u8]) -> String {
    let mut pending = Vec::new();
    decode_utf8_chunk(&mut pending, bytes, true)
}

#[test]
fn valid_text_is_decoded_as_it_is() {
    let text = "a\u{e9}\u{4e16}\u{1f600}\u{10ffff}\u{7ff}\u{800}\u{ffff}\u{10000}\0";
    let mut pending = Vec::new();
    assert_eq!(decode_utf8_chunk(&mut pending, text.as_bytes(), false), text);
    assert!(pending.is_empty());
    assert_eq!(decode_utf8_chunk(&mut pending, &[], true), "");
}

#[test]
fn every_character_is_decoded() {
    for code in 0..=0x10ffffu32 {
        if let Some(ch) = char::from_u32(code) {
            let text = ch.to_string();
            if code % 97 == 0 || code < 0x3000 {
                assert_eq!(decoded(text.as_bytes()), text);
            }
        }
    }
}

#[test]
fn incomplete_characters_stay_pending() {
    let mut pending = Vec::new();
    assert_eq!(decode_utf8_chunk(&mut pending, b"a\xe4\xb8", false), "a");
    assert_eq!(pending, vec![0xe4, 0xb8]);
    assert_eq!(decode_utf8_chunk(&mut pending, b"\x96b", false), "\u{4e16}b");
    assert!(pending.is_empty());
    assert_eq!(decode_utf8_chunk(&mut pending, b"\xf0\x9f\x98", false), "");
    assert_eq!(decode_utf8_chunk(&mut pending, &[], true), "\u{fffd}");
    assert!(pending.is_empty());
}

#[test]
fn bytes_that_are_no_text_are_replaced() {
    assert_eq!(decoded(b"a\xffb"), "a\u{fffd}b");
    assert_eq!(decoded(b"\xe4\xb8a"), "\u{fffd}a");
    assert_eq!(decoded(b"\xed\xa0\x80"), "\u{fffd}\u{fffd}\u{fffd}");
    assert_eq!(decoded(b"\xc0\x80"), "\u{fffd}\u{fffd}");
    assert_eq!(decoded(b"\xf4\x90\x80\x80"), "\u{fffd}\u{fffd}\u{fffd}\u{fffd}");
    assert_eq!(decoded(b"\xf0\x9f\x98a"), "\u{fffd}a");
}

#[test]
fn decoding_agrees_with_the_lossy_conversion() {
    let samples: [u8; 18] = [
        0x00, 0x41, 0x7f, 0x80, 0x8f, 0x90, 0x9f, 0xa0, 0xbf, 0xc1, 0xc2, 0xdf, 0xe0, 0xed, 0xef,
        0xf0, 0xf4, 0xf5,
    ];
    for a in samples {
        for b in samples {
            for c in samples {
                for d in samples {
                    let bytes = [a, b, c, d];
                    assert_eq!(
                        decoded(&bytes),
                        String::from_utf8_lossy(&bytes),
                        "{bytes:?}"
                    );
                }
            }
        }
    }
}

#[test]
fn decoding_does_not_depend_on_the_pieces() {
    let bytes = b"a\xc3\xa9\xe4\xb8\x96\xff\xf0\x9f\x98\x80\xe4\xb8x\xed\xa0\x80";
    let whole = decoded(bytes);
    for cut in 0..=bytes.len() {
        let mut pending = Vec::new();
        let mut text = decode_utf8_chunk(&mut pending, &bytes[..cut], false);
        text.push_str(&decode_utf8_chunk(&mut pending, &bytes[cut..], true));
        assert_eq!(text, whole, "{cut}");
    }
    let mut pending = Vec::new();
    let mut text = String::new();
    for byte in bytes {
        text.push_str(&decode_utf8_chunk(&mut pending, &[*byte], false));
    }
    text.push_str(&decode_utf8_chunk(&mut pending, &[], true));
    assert_eq!(text, whole);
}
