use webgpu_worker::colour::{hex_channel, hex_channels, parse_hex_byte};

#[test]
fn picker_default_colour() {
    assert_eq!(hex_channels("#4d80e6"), (Some(0x4d), Some(0x80), Some(0xe6)));
}

#[test]
fn upper_case_digits() {
    assert_eq!(hex_channels("#FFA07A"), (Some(255), Some(160), Some(122)));
}

#[test]
fn short_text_misses_channels() {
    assert_eq!(hex_channels("#FFF"), (Some(255), None, None));
    assert_eq!(hex_channels(""), (None, None, None));
    assert_eq!(hex_channels("#"), (None, None, None));
}

#[test]
fn non_hex_channel_is_none() {
    assert_eq!(hex_channels("#zz0000"), (None, Some(0), Some(0)));
}

#[test]
fn plus_sign_is_accepted_minus_is_not() {
    assert_eq!(hex_channels("#+f+a-1"), (Some(15), Some(10), None));
}

#[test]
fn multibyte_characters() {
    // "é" takes bytes 1..3, then "12" at 3..5, and nothing at 5..7.
    assert_eq!(hex_channels("#é123"), (None, Some(0x12), None));
    // The range 1..3 ends inside "é": not a character boundary.
    assert_eq!(hex_channel("#aé", 1), None);
}

#[test]
fn parse_matches_from_str_radix() {
    let cases: [&[u8]; 10] = [b"", b"+", b"-", b"0", b"ff", b"+ff", b"100", b"0ff", b"g", b"-1"];
    for case in cases {
        let expected = std::str::from_utf8(case)
            .ok()
            .and_then(|s| u8::from_str_radix(s, 16).ok());
        assert_eq!(parse_hex_byte(case, 0, case.len()), expected, "{:?}", case);
    }
}

#[test]
fn parse_in_the_middle_of_a_slice() {
    assert_eq!(parse_hex_byte(b"xx7fyy", 2, 4), Some(0x7f));
}
