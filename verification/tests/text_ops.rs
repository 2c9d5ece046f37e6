use agent_works::text::{
    decimal_text, is_whitespace, join, lines, split_pieces, starts_with, trim, trim_end_char,
    trim_start_char, zero_padded_text,
};

/// The white-space characters are those of the standard library, all of them.
#[test]
fn white_space_is_the_standard_one() {
    for n in 0..=0x10ffffu32 {
        if let Some(c) = char::from_u32(n) {
            assert_eq!(is_whitespace(c), c.is_whitespace(), "U+{n:04X}");
        }
    }
}

#[test]
fn text_operations_agree_with_the_standard_library() {
    let samples = [
        "", "\n", "\r\n", "a", "a\n", "a\r\nb", "a\r\r\nb\n\n", "a\rb\n", "\u{3000}x y\t", "中文\n行",
        "  --  ", "aaa", "\n\n",
    ];
    for s in samples {
        assert_eq!(lines(s), s.lines().map(str::to_string).collect::<Vec<_>>(), "{s:?}");
        assert_eq!(trim(s), s.trim());
        assert_eq!(split_pieces(s), s.split('\n').map(str::to_string).collect::<Vec<_>>());
        assert_eq!(trim_start_char(s, '\n'), s.trim_start_matches('\n'));
        assert_eq!(trim_end_char(s, 'a'), s.trim_end_matches('a'));
        for p in samples {
            assert_eq!(starts_with(s, p), s.starts_with(p));
        }
        let parts = vec![s.to_string(), "x".to_string(), s.to_string()];
        assert_eq!(join(&parts, ", "), parts.join(", "));
    }
}

#[test]
fn numbers_in_decimal() {
    for n in [0, 9, 10, 907, 65_536, u64::MAX] {
        assert_eq!(decimal_text(n), n.to_string());
        assert_eq!(zero_padded_text(n, 4), format!("{n:04}"));
    }
}
