use yt_dlp_ui::text::{
    ascii_lowercase, chars_of, chomp, contains, decimal_text, digit_char, join, replace, same_text,
    split, trim, white_space,
};

fn samples() -> Vec<&'static str> {
    vec![
        "",
        " ",
        "a",
        "  a b\t\n",
        "\u{2003}wide\u{3000}",
        "\u{200b}zero width stays",
        "a//b/",
        "/",
        "....",
        "aXbXc",
        "MiXeD Größe ÄÖ",
        "%(playlist_title)s and %(playlist_title)s",
        "line\r\n",
        "line\n\n",
        "\r\n",
        "\n",
        "tail\r",
    ]
}

#[test]
fn white_space_is_that_of_char() {
    let mut code: u32 = 0;
    while code <= 0x10ffff {
        if let Some(c) = char::from_u32(code) {
            assert_eq!(white_space(c), c.is_whitespace(), "{:?}", c);
        }
        code += 1;
    }
}

#[test]
fn trim_agrees_with_str() {
    for s in samples() {
        assert_eq!(trim(s), s.trim());
    }
    assert_eq!(trim("\u{a0} x y \u{85}"), "x y");
}

#[test]
fn characters_come_in_order() {
    for s in samples() {
        assert_eq!(chars_of(s), s.chars().collect::<Vec<char>>());
    }
}

#[test]
fn same_text_is_equality() {
    for a in samples() {
        for b in samples() {
            assert_eq!(same_text(a, b), a == b);
        }
    }
    assert!(!same_text("abc", "abd"));
    assert!(!same_text("abc", "ab"));
}

#[test]
fn contains_agrees_with_str() {
    for s in samples() {
        for p in vec!["", "a", "..", "/b", "%(playlist_title)s", "X", "\r\n", "ö"] {
            assert_eq!(contains(s, p), s.contains(p), "{:?} in {:?}", p, s);
        }
    }
}

#[test]
fn replace_agrees_with_str() {
    for s in samples() {
        for p in vec!["a", "..", "...", "X", "%(playlist_title)s", "Größe"] {
            for w in vec!["", "-", "XX", "%(playlist_title)s"] {
                assert_eq!(replace(s, p, w), s.replace(p, w));
            }
        }
    }
    assert_eq!(replace("aaaa", "aa", "b"), "bb");
    assert_eq!(replace("aaa", "aa", "b"), "ba");
}

#[test]
fn split_and_join_agree_with_std() {
    for s in samples() {
        for c in vec!['/', 'X', '\n', ' '] {
            let expected: Vec<String> = s.split(c).map(String::from).collect();
            let pieces = split(s, c);
            assert_eq!(pieces, expected);
            let separator = c.to_string();
            assert_eq!(join(&pieces, &separator), s);
        }
    }
    assert_eq!(join(&Vec::new(), ", "), "");
    let words = vec!["x".to_string(), "".to_string(), "yz".to_string()];
    assert_eq!(join(&words, "::"), "x::::yz");
}

#[test]
fn decimal_notation() {
    for n in vec![0, 7, 10, 99, 1000, 1024, 20_030, u64::MAX] {
        assert_eq!(decimal_text(n), n.to_string());
    }
    assert_eq!(digit_char(0), '0');
    assert_eq!(digit_char(9), '9');
}

#[test]
fn ascii_lowercase_agrees_with_str() {
    for s in samples() {
        assert_eq!(ascii_lowercase(s), s.to_ascii_lowercase());
    }
    assert_eq!(ascii_lowercase("@AZ[`az{Ä"), "@az[`az{Ä");
}

#[test]
fn chomp_drops_one_line_end() {
    assert_eq!(chomp("line\r\n"), "line");
    assert_eq!(chomp("line\n"), "line");
    assert_eq!(chomp("line\n\n"), "line\n");
    assert_eq!(chomp("line\r\r\n"), "line\r");
    assert_eq!(chomp("line\r"), "line\r");
    assert_eq!(chomp("\r\n"), "");
    assert_eq!(chomp("\n"), "");
    assert_eq!(chomp(""), "");
}
