use living_postmortem_mcp::text::{chars_of, is_whitespace, string_of, trim_chars};

#[test]
fn whitespace_matches_std_on_every_char() {
    for code in 0u32..=0x10FFFF {
        if let Some(c) = char::from_u32(code) {
            assert_eq!(is_whitespace(c), c.is_whitespace(), "code point {code:#x}");
        }
    }
}

#[test]
fn trim_matches_std() {
    for sample in ["", "  a b  ", "\u{3000}x\u{85}", "\t\n\r", "no-trim", " \u{2003}mid dle\u{a0} "] {
        let cs = chars_of(sample);
        assert_eq!(string_of(&trim_chars(&cs)), sample.trim());
    }
}
