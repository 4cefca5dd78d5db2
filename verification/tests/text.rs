use condukt::text::{
    blank, dec_signed, dec_text, end_of, hex8, holds_part, is_before, join, leading_word,
    line_list, lowered, pad_end, pad_start, raised, repeat, same, same_str, starts, trimmed, trimmed_end,
    trimmed_start, truncate_chars,
};
use condukt::verdict::{Determination, Verdict};

const SAMPLES: [&str; 8] =
    ["", "a", " a b ", "\u{a0}x\u{3000}", "line\r\nnext\n\nlast", "é→", "\n", "A-ßZ"];

#[test]
fn texts_are_trimmed_like_std_does() {
    for s in SAMPLES {
        assert_eq!(trimmed(s), s.trim());
        assert_eq!(trimmed_start(s), s.trim_start());
        assert_eq!(trimmed_end(s), s.trim_end());
        assert_eq!(blank(s), s.trim().is_empty());
        assert_eq!(leading_word(s), s.split_whitespace().next().unwrap_or(""));
        assert_eq!(lowered(s), s.to_ascii_lowercase());
        assert_eq!(raised(s), s.to_ascii_uppercase());
    }
}

#[test]
fn lines_are_cut_like_std_does() {
    for s in SAMPLES {
        let lines: Vec<String> = s.lines().map(|l| l.to_string()).collect();
        assert_eq!(line_list(s), lines);
    }
    assert_eq!(line_list("a\rb\r\n\r"), vec!["a\rb", "\r"]);
}

#[test]
fn texts_are_searched_like_std_does() {
    for s in SAMPLES {
        for part in ["", "a", "b ", "→", "\n"] {
            assert_eq!(holds_part(s, part), s.contains(part));
            assert_eq!(starts(s, part), s.starts_with(part));
        }
        for other in SAMPLES {
            assert_eq!(is_before(s, other), s < other);
            assert_eq!(same_str(s, other), s == other);
            assert_eq!(same(&s.to_string(), other), s == other);
        }
    }
}

#[test]
fn numbers_are_written_like_std_does() {
    for n in [0u64, 7, 10, 99, 1234567890, u64::MAX] {
        assert_eq!(dec_text(n), n.to_string());
    }
    for n in [0i64, -1, 42, i64::MIN, i64::MAX] {
        assert_eq!(dec_signed(n), n.to_string());
    }
    for n in [0u32, 0xabc, u32::MAX] {
        assert_eq!(hex8(n), format!("{n:08x}"));
    }
}

#[test]
fn columns_are_padded_like_std_does() {
    assert_eq!(pad_end("é", 4), format!("{:<4}", "é"));
    assert_eq!(pad_start("ab", 4), format!("{:>4}", "ab"));
    assert_eq!(pad_end("abcdef", 4), "abcdef");
    assert_eq!(repeat('-', 3), "---");
    assert_eq!(truncate_chars("héllo", 2), "hé…");
    assert_eq!(truncate_chars("hé", 2), "hé");
    assert_eq!(end_of("abc", 2), "bc");
    assert_eq!(join(&vec!["a".to_string(), "b".to_string()], ", "), "a, b");
}

#[test]
fn a_check_without_findings_is_clean() {
    assert_eq!(Verdict::from_findings(Vec::new()), Verdict::Clean);
    let found = Verdict::from_findings(vec!["a".to_string(), "b".to_string()]);
    assert!(found.blocks());
    assert_eq!(found.reason().as_deref(), Some("a; b"));
    assert!(!Verdict::Clean.blocks());
    assert_eq!(Verdict::Clean.reason(), None);
    let open = Verdict::Undetermined("why".to_string());
    assert!(open.blocks());
    assert_eq!(open.reason().as_deref(), Some("why"));
    assert_eq!(Determination::<u8>::known(3), Determination::Known(3));
    assert_eq!(
        Determination::<u8>::undetermined("x"),
        Determination::Undetermined("x".to_string())
    );
}
