use profile_router::text::{
    ends_with, eq_ignore_ascii_case, is_white_space_char, starts_with, str_eq, str_le,
    trim, trim_end_matches, trim_matches,
};

#[test]
fn trimming_matches_std() {
    for s in ["", "   ", " a ", "\t\nx y\u{3000}", "\u{85}z\u{a0}", "plain", "\u{200b}k"] {
        assert_eq!(trim(s), s.trim(), "{s:?}");
    }
    for s in ["a..", "...", "", "a.b", ".a"] {
        assert_eq!(trim_end_matches(s, '.'), s.trim_end_matches('.'), "{s:?}");
    }
    for s in [r#""C:\x.exe""#, r#"""a""#, "\"", "", "plain"] {
        assert_eq!(trim_matches(s, '"'), s.trim_matches('"'), "{s:?}");
    }
}

#[test]
fn white_space_matches_std() {
    for u in 0u32..0x3100 {
        if let Some(c) = char::from_u32(u) {
            assert_eq!(is_white_space_char(c), c.is_whitespace(), "{u:#x}");
        }
    }
}

#[test]
fn comparisons_match_std() {
    let words = ["", "a", "A", "ab", "b", "é", "Ärger", "ärger", "Profile 10", "Profile 2"];
    for a in words {
        for b in words {
            assert_eq!(str_eq(a, b), a == b);
            assert_eq!(str_le(a, b), a <= b, "{a:?} {b:?}");
            assert_eq!(starts_with(a, b), a.starts_with(b));
            assert_eq!(ends_with(a, b), a.ends_with(b));
            assert_eq!(eq_ignore_ascii_case(a, b), a.eq_ignore_ascii_case(b), "{a:?} {b:?}");
        }
    }
}
