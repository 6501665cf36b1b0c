use region_recovery::fingerprint::fingerprint_of;
use region_recovery::text::{
    chars_of, contains, eq_ignore_ascii_case, find, is_white_space, parses_as_u64, split_once,
    strip_prefix, trim,
};

fn string(chars: &[char]) -> String {
    chars.iter().collect()
}

#[test]
fn white_space_is_what_the_standard_library_calls_white_space() {
    for c in '\0'..=char::MAX {
        assert_eq!(is_white_space(c), c.is_whitespace(), "{:?}", c);
    }
}

#[test]
fn texts_are_searched_and_split_as_the_standard_library_does() {
    let texts = ["", "a", "ab", "aab", "abab", "a(b) c", "é(b)é(b)", "(b)", "x(b"];
    let patterns = ["", "a", "ab", "(b)", "é", "zz"];
    for text in texts {
        let chars = chars_of(text);
        assert_eq!(string(&chars), text);
        for pattern in patterns {
            assert_eq!(contains(text, pattern), text.contains(pattern));
            assert_eq!(
                find(&chars, &chars_of(pattern)),
                text.find(pattern).map(|byte| text[..byte].chars().count()),
            );
            assert_eq!(
                split_once(&chars, pattern).map(|(a, b)| (string(a), string(b))),
                text.split_once(pattern).map(|(a, b)| (a.to_string(), b.to_string())),
            );
            assert_eq!(
                strip_prefix(&chars, pattern).map(string),
                text.strip_prefix(pattern).map(str::to_string),
            );
        }
    }
}

#[test]
fn texts_are_trimmed_as_the_standard_library_does() {
    for text in ["", " ", "a", " a", "a ", "\u{3000}a b\t\r\n", "\u{200b}a\u{200b}", "  \u{85}  "] {
        assert_eq!(string(trim(&chars_of(text))), text.trim());
    }
}

#[test]
fn case_is_ignored_for_ascii_letters_only() {
    for (a, b) in [
        ("Internal Server ERROR", "Internal server error"),
        ("Internal server errors", "Internal server error"),
        ("É", "é"),
        ("[", "{"),
        ("@", "`"),
        ("", ""),
    ] {
        assert_eq!(eq_ignore_ascii_case(&chars_of(a), b), a.eq_ignore_ascii_case(b));
    }
}

#[test]
fn numbers_are_those_that_fit_a_u64() {
    for text in [
        "", "+", "-", "-0", "-1", "0", "+0", "++0", "007", "282061", "1 ", " 1", "1a", "٣",
        "18446744073709551615", "18446744073709551616", "18446744073709551609",
        "018446744073709551615", "99999999999999999999", "+18446744073709551615",
    ] {
        assert_eq!(parses_as_u64(&chars_of(text)), text.parse::<u64>().is_ok(), "{}", text);
    }
}

#[test]
fn fingerprints_are_sha_256_digests() {
    let digest: [u8; 32] = [
        0xba, 0x78, 0x16, 0xbf, 0x8f, 0x01, 0xcf, 0xea, 0x41, 0x41, 0x40, 0xde, 0x5d, 0xae, 0x22,
        0x23, 0xb0, 0x03, 0x61, 0xa3, 0x96, 0x17, 0x7a, 0x9c, 0xb4, 0x10, 0xff, 0x61, 0xf2, 0x00,
        0x15, 0xad,
    ];
    let mut low = [0u8; 16];
    let mut high = [0u8; 16];
    low.copy_from_slice(&digest[..16]);
    high.copy_from_slice(&digest[16..]);
    assert_eq!(
        fingerprint_of("abc"),
        (u128::from_le_bytes(low), u128::from_le_bytes(high)),
    );
    assert_ne!(fingerprint_of("abc"), fingerprint_of("abd"));
}
