use secondbrain::text::{contains_str, i64_to_decimal, is_white_space_char, trim, u64_to_decimal};

#[test]
fn trim_matches_std() {
    for s in ["", "   ", " a ", "\u{85}x\u{a0}", "\u{200b}x\u{200b}", "a b", "\n\t x y \r", "\u{1680}z\u{205f}\u{3000}"] {
        assert_eq!(trim(s), s.trim(), "on {s:?}");
    }
}

#[test]
fn white_space_matches_std() {
    for u in 0u32..0x3100 {
        if let Some(c) = char::from_u32(u) {
            assert_eq!(is_white_space_char(c), c.is_whitespace(), "on U+{u:04X}");
        }
    }
}

#[test]
fn contains_matches_std() {
    for (h, n) in [("abc@g.us", "@g.us"), ("abc", ""), ("", "a"), ("aab", "ab"), ("ab", "abc"), ("xyz", "yx")] {
        assert_eq!(contains_str(h, n), h.contains(n), "on {h:?} {n:?}");
    }
}

#[test]
fn decimal_matches_to_string() {
    for n in [0i64, 7, 10, 99, -1, -10, 1234567890, i64::MAX, i64::MIN] {
        assert_eq!(i64_to_decimal(n), n.to_string());
    }
    assert_eq!(u64_to_decimal(u64::MAX), u64::MAX.to_string());
}
